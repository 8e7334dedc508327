//! Scope checking: every variable gets a unique id, declarations become
//! assignments to fresh ids, and calls are recorded against the functions
//! defined so far.
use vstd::prelude::*;

use crate::frontend::errors::{spec_default_error, CompileError, SpecCompileError};
use crate::frontend::parsers::expr::{exprs_view, Expr, Literal, SpecExpr};
use crate::frontend::parsers::func::{params_view, Func, SpecFunc};
use crate::frontend::parsers::lvalue::{LValue, SpecLValue};
use crate::frontend::parsers::stmt::{SpecStmt, Stmt};
use crate::frontend::parsers::types::Type;
use crate::frontend::parsers::{funcs_view, Prog};
use crate::frontend::semantic::symbol::{
    gen_id, law_global_id_injective, spec_global_id, FunctionTypeInfo, SymbolTable, UniqueId,
    SPECIAL_CHAR,
};
use crate::frontend::semantic::types::{
    errors_view, lemma_exprs_view_index, lemma_no_declare_seq, no_declare, no_declare_lvalue,
    no_declare_seq, sigs_of,
};
use crate::frontend::Ident;
use crate::table::StrMap;

verus! {

/// A scope table: the unique id of each name.
pub type Tbl = Map<Seq<char>, Seq<char>>;

/// What scope checking changes as it goes: the symbol table and the errors.
pub struct ScState {
    pub funcs: Map<Seq<char>, (Seq<Type>, Type)>,
    pub globals: Map<Seq<char>, Type>,
    pub undefined: Set<Seq<char>>,
    pub untyped: Set<Seq<char>>,
    pub errors: Seq<SpecCompileError>,
}

pub open spec fn sc_state(symbols: SymbolTable, errors: Seq<CompileError>) -> ScState {
    ScState {
        funcs: sigs_of(symbols),
        globals: symbols.globals@,
        undefined: symbols.undefined@,
        untyped: symbols.untyped@,
        errors: errors_view(errors),
    }
}

pub open spec fn table_view(t: StrMap<String>) -> Tbl {
    t@.map_values(|s: String| s@)
}

/// A blank error reported.
pub open spec fn sc_blank(st: ScState) -> ScState {
    ScState { errors: st.errors.push(spec_default_error()), ..st }
}

/// The number that the next fresh id carries: the number of variables
/// recorded, with a type or without one.
pub open spec fn fresh_index(st: ScState) -> nat {
    let n = st.globals.len() + st.untyped.len();
    if n <= usize::MAX {
        n
    } else {
        st.globals.len()
    }
}

/// A new variable named `name`: with a type it is recorded with it,
/// without one it is recorded as untyped.
pub open spec fn sc_new_symbol(st: ScState, ty: Option<Type>, name: Seq<char>) -> (
    Seq<char>,
    ScState,
) {
    let uid = spec_global_id(name, fresh_index(st));
    (
        uid,
        match ty {
            Some(t) => ScState { globals: st.globals.insert(uid, t), ..st },
            None => ScState { untyped: st.untyped.insert(uid), ..st },
        },
    )
}

/// The id of `name` in scope: the innermost scope's first.
pub open spec fn lookup(parent: Tbl, local: Tbl, name: Seq<char>) -> Option<Seq<char>> {
    if local.contains_key(name) {
        Some(local[name])
    } else if parent.contains_key(name) {
        Some(parent[name])
    } else {
        None
    }
}

/// A use of `name`: its id in scope; a name not in scope is reported and
/// gets a fresh `void` variable.
pub open spec fn sc_get_var(parent: Tbl, local: Tbl, st: ScState, name: Seq<char>) -> (
    Seq<char>,
    ScState,
) {
    match lookup(parent, local, name) {
        Some(uid) => (uid, st),
        None => sc_new_symbol(sc_blank(st), Some(Type::Void), name),
    }
}

/// A name already defined in the same scope is reported.
pub open spec fn sc_can_define(local: Tbl, st: ScState, name: Seq<char>) -> ScState {
    if local.contains_key(name) {
        sc_blank(st)
    } else {
        st
    }
}

/// Scope checking `e` in the scope (`parent`, `local`): the expression
/// with unique ids, the scope's new local table, and the state after.
pub open spec fn sc_expr(parent: Tbl, local: Tbl, st: ScState, e: SpecExpr) -> (
    SpecExpr,
    Tbl,
    ScState,
)
    decreases e,
{
    match e {
        SpecExpr::Literal(l) => (SpecExpr::Literal(l), local, st),
        SpecExpr::Array(es) => {
            let (es2, l1, st1) = sc_exprs(parent, local, st, es);
            (SpecExpr::Array(es2), l1, st1)
        },
        SpecExpr::LValue(lv) => {
            let (lv2, l1, st1) = sc_lvalue(parent, local, st, lv);
            (SpecExpr::LValue(lv2), l1, st1)
        },
        SpecExpr::Call(id, ps) => {
            let st1 = if st.funcs.contains_key(id) {
                st
            } else {
                ScState { undefined: st.undefined.insert(id), ..st }
            };
            let (ps2, l1, st2) = sc_exprs(parent, local, st1, ps);
            (SpecExpr::Call(id, ps2), l1, st2)
        },
        SpecExpr::UnaryOp(m, p) => {
            let (p2, l1, st1) = sc_expr(parent, local, st, *p);
            (SpecExpr::UnaryOp(m, Box::new(p2)), l1, st1)
        },
        SpecExpr::BinaryOp(m, p1, p2) => {
            let (q1, l1, st1) = sc_expr(parent, local, st, *p1);
            let (q2, l2, st2) = sc_expr(parent, l1, st1, *p2);
            (SpecExpr::BinaryOp(m, Box::new(q1), Box::new(q2)), l2, st2)
        },
        SpecExpr::Stmt(s) => {
            let (s2, l1, st1) = sc_stmt(parent, local, st, s);
            (SpecExpr::Stmt(s2), l1, st1)
        },
        SpecExpr::Block(es, ret) => {
            let inner = parent.union_prefer_right(local);
            let (es2, l1, st1) = sc_exprs(inner, Map::empty(), st, es);
            match ret {
                Some(x) => {
                    let (x2, _l2, st2) = sc_expr(inner, l1, st1, *x);
                    (SpecExpr::Block(es2, Some(Box::new(x2))), local, st2)
                },
                None => (SpecExpr::Block(es2, None), local, st1),
            }
        },
    }
}

/// Scope checking a list of expressions in order, in one scope.
pub open spec fn sc_exprs(parent: Tbl, local: Tbl, st: ScState, es: Seq<SpecExpr>) -> (
    Seq<SpecExpr>,
    Tbl,
    ScState,
)
    decreases es,
{
    if es.len() == 0 {
        (seq![], local, st)
    } else {
        let (e2, l1, st1) = sc_expr(parent, local, st, es[0]);
        let (rest, l2, st2) = sc_exprs(parent, l1, st1, es.drop_first());
        (seq![e2] + rest, l2, st2)
    }
}

/// Scope checking a place: the variable first, then the index.
pub open spec fn sc_lvalue(parent: Tbl, local: Tbl, st: ScState, lv: SpecLValue) -> (
    SpecLValue,
    Tbl,
    ScState,
)
    decreases lv,
{
    match lv {
        SpecLValue::Ident(id) => {
            let (uid, st1) = sc_get_var(parent, local, st, id);
            (SpecLValue::Ident(uid), local, st1)
        },
        SpecLValue::ArrayElem(inner, ex) => {
            let (i2, l1, st1) = sc_lvalue(parent, local, st, *inner);
            let (e2, l2, st2) = sc_expr(parent, l1, st1, *ex);
            (SpecLValue::ArrayElem(Box::new(i2), Box::new(e2)), l2, st2)
        },
    }
}

/// Scope checking a statement. A declaration checks its value first, then
/// reports a name already defined in the same scope, and becomes an
/// assignment to a fresh variable; an assignment resolves its variable,
/// then checks its value.
pub open spec fn sc_stmt(parent: Tbl, local: Tbl, st: ScState, s: SpecStmt) -> (
    SpecStmt,
    Tbl,
    ScState,
)
    decreases s,
{
    match s {
        SpecStmt::If { cond, tt, ff } => {
            let (c2, l1, st1) = sc_expr(parent, local, st, *cond);
            let (t2, l2, st2) = sc_expr(parent, l1, st1, *tt);
            match ff {
                Some(f) => {
                    let (f2, l3, st3) = sc_expr(parent, l2, st2, *f);
                    (
                        SpecStmt::If { cond: Box::new(c2), tt: Box::new(t2), ff: Some(Box::new(f2)) },
                        l3,
                        st3,
                    )
                },
                None => (SpecStmt::If { cond: Box::new(c2), tt: Box::new(t2), ff: None }, l2, st2),
            }
        },
        SpecStmt::Declare { id, ty, rvalue } => {
            let (r2, l1, st1) = sc_expr(parent, local, st, *rvalue);
            let st2 = sc_can_define(l1, st1, id);
            let (uid, st3) = sc_new_symbol(st2, ty, id);
            (SpecStmt::Assign { id: uid, rvalue: Box::new(r2) }, l1.insert(id, uid), st3)
        },
        SpecStmt::Assign { id, rvalue } => {
            let (uid, st1) = sc_get_var(parent, local, st, id);
            let (r2, l1, st2) = sc_expr(parent, local, st1, *rvalue);
            (SpecStmt::Assign { id: uid, rvalue: Box::new(r2) }, l1, st2)
        },
        SpecStmt::While { cond, then } => {
            let (c2, l1, st1) = sc_expr(parent, local, st, *cond);
            let (t2, l2, st2) = sc_expr(parent, l1, st1, *then);
            (SpecStmt::While { cond: Box::new(c2), then: Box::new(t2) }, l2, st2)
        },
    }
}

/// The parameters of a function, each reported if already defined and
/// given a fresh variable of its type.
pub open spec fn sc_params(local: Tbl, st: ScState, ps: Seq<(Seq<char>, Type)>) -> (
    Seq<(Seq<char>, Type)>,
    Tbl,
    ScState,
)
    decreases ps.len(),
{
    if ps.len() == 0 {
        (seq![], local, st)
    } else {
        let (id, ty) = ps[0];
        let st1 = sc_can_define(local, st, id);
        let (uid, st2) = sc_new_symbol(st1, Some(ty), id);
        let (rest, l3, st3) = sc_params(local.insert(id, uid), st2, ps.drop_first());
        (seq![(uid, ty)] + rest, l3, st3)
    }
}

/// The types of a list of parameters.
pub open spec fn param_types(ps: Seq<(Seq<char>, Type)>) -> Seq<Type> {
    Seq::new(ps.len(), |i: int| ps[i].1)
}

/// Scope checking a function in a new scope: its parameters, then its
/// signature recorded (a second definition of the name is reported), then
/// its body.
pub open spec fn sc_func(parent: Tbl, local: Tbl, st: ScState, f: SpecFunc) -> (SpecFunc, ScState) {
    let inner = parent.union_prefer_right(local);
    let (ps2, l1, st1) = sc_params(Map::empty(), st, f.parameters);
    let st2 = ScState {
        undefined: st1.undefined.remove(f.name),
        funcs: st1.funcs.insert(f.name, (param_types(f.parameters), f.return_type)),
        errors: if st1.funcs.contains_key(f.name) {
            st1.errors.push(spec_default_error())
        } else {
            st1.errors
        },
        ..st1
    };
    let (b2, _l2, st3) = sc_expr(inner, l1, st2, f.block);
    (SpecFunc { name: f.name, parameters: ps2, return_type: f.return_type, block: b2 }, st3)
}

/// Scope checking the functions of a program in order.
pub open spec fn sc_funcs(parent: Tbl, local: Tbl, st: ScState, fs: Seq<SpecFunc>) -> (
    Seq<SpecFunc>,
    ScState,
)
    decreases fs.len(),
{
    if fs.len() == 0 {
        (seq![], st)
    } else {
        let (f2, st1) = sc_func(parent, local, st, fs[0]);
        let (rest, st2) = sc_funcs(parent, local, st1, fs.drop_first());
        (seq![f2] + rest, st2)
    }
}

pub open spec fn errors_wf(errors: Seq<CompileError>) -> bool {
    forall|i: int| 0 <= i < errors.len() ==> (#[trigger] errors[i]).wf()
}

/// The scopes around the code being checked: the names of the enclosing
/// scopes (`parent`) and those of the innermost one (`local`).
pub struct Scopes {
    pub parent: StrMap<String>,
    pub local: StrMap<String>,
}

/// A blank error reported.
fn push_blank(errors: &mut Vec<CompileError>)
    requires
        errors_wf(old(errors)@),
    ensures
        errors_wf(final(errors)@),
        errors_view(final(errors)@) == errors_view(old(errors)@).push(spec_default_error()),
{
    errors.push(CompileError::blank_error());
    assert(errors_view(errors@) =~= errors_view(old(errors)@).push(spec_default_error()));
}

/// The id that the next new variable named `name` gets.
fn fresh_id(symbols: &SymbolTable, name: &Ident) -> (r: UniqueId)
    requires
        symbols.wf(),
    ensures
        r@ == spec_global_id(name@, fresh_index(sc_state(*symbols, seq![]))),
{
    let g = symbols.globals.len();
    let u = symbols.untyped.len();
    let n = if g <= usize::MAX - u {
        g + u
    } else {
        g
    };
    gen_id(name.clone(), n)
}

impl Scopes {
    pub open spec fn wf(&self) -> bool {
        self.parent.wf() && self.local.wf()
    }

    /// The outermost scope, with no names.
    pub fn new() -> (r: Self)
        ensures
            r.wf(),
            table_view(r.parent) == Tbl::empty(),
            table_view(r.local) == Tbl::empty(),
    {
        let r = Scopes { parent: StrMap::new(), local: StrMap::new() };
        assert(table_view(r.parent) =~= Tbl::empty());
        assert(table_view(r.local) =~= Tbl::empty());
        r
    }

    /// A scope inside `parent`: it sees every name that `parent` sees, and
    /// has none of its own yet.
    pub fn from_parent(parent: &Self) -> (r: Self)
        requires
            parent.wf(),
        ensures
            r.wf(),
            table_view(r.parent) == table_view(parent.parent).union_prefer_right(
                table_view(parent.local),
            ),
            table_view(r.local) == Tbl::empty(),
    {
        let ghost pv = table_view(parent.parent);
        let ghost ents = parent.local.entries@;
        let mut p = parent.parent.copy();
        let mut i: usize = 0;
        while i < parent.local.entries.len()
            invariant
                i <= ents.len(),
                ents == parent.local.entries@,
                parent.local.wf(),
                p.wf(),
                forall|k: Seq<char>|
                    #![trigger table_view(p).contains_key(k)]
                    table_view(p).contains_key(k) <==> (pv.contains_key(k) || exists|j: int|
                        0 <= j < i && (#[trigger] ents[j]).0@ == k),
                forall|j: int| 0 <= j < i ==> table_view(p)[(#[trigger] ents[j]).0@] == ents[j].1@,
                forall|k: Seq<char>|
                    table_view(p).contains_key(k) && !(exists|j: int|
                        0 <= j < i && (#[trigger] ents[j]).0@ == k) ==> table_view(p)[k] == pv[k],
            decreases ents.len() - i,
        {
            let ghost p0 = table_view(p);
            let key = parent.local.entries[i].0.clone();
            let val = parent.local.entries[i].1.clone();
            p.insert(key, val);
            proof {
                assert(table_view(p) =~= p0.insert(ents[i as int].0@, ents[i as int].1@));
                assert forall|j: int| 0 <= j < i + 1 implies table_view(p)[(#[trigger] ents[j]).0@]
                    == ents[j].1@ by {
                    if j < i {
                        assert(ents[j].0@ != ents[i as int].0@);
                    }
                }
                assert forall|k: Seq<char>|
                    #![trigger table_view(p).contains_key(k)]
                    table_view(p).contains_key(k) <==> (pv.contains_key(k) || exists|j: int|
                        0 <= j < i + 1 && (#[trigger] ents[j]).0@ == k) by {
                    if k == ents[i as int].0@ {
                        assert(table_view(p).contains_key(k));
                    }
                }
            }
            i = i + 1;
        }
        let r = Scopes { parent: p, local: StrMap::new() };
        proof {
            let lv = table_view(parent.local);
            assert forall|k: Seq<char>|
                #![trigger table_view(p).contains_key(k)]
                table_view(p).contains_key(k) <==> pv.union_prefer_right(lv).contains_key(k) by {
                if lv.contains_key(k) {
                    let j = parent.local.index_of(k);
                    parent.local.lemma_index(j);
                }
                if exists|j: int| 0 <= j < ents.len() && (#[trigger] ents[j]).0@ == k {
                    let j = choose|j: int| 0 <= j < ents.len() && (#[trigger] ents[j]).0@ == k;
                    parent.local.lemma_index(j);
                }
            }
            assert forall|k: Seq<char>| #[trigger] table_view(p).contains_key(k) implies table_view(p)[k]
                == pv.union_prefer_right(lv)[k] by {
                if exists|j: int| 0 <= j < ents.len() && (#[trigger] ents[j]).0@ == k {
                    let j = choose|j: int| 0 <= j < ents.len() && (#[trigger] ents[j]).0@ == k;
                    parent.local.lemma_index(j);
                } else if lv.contains_key(k) {
                    let j = parent.local.index_of(k);
                    parent.local.lemma_index(j);
                }
            }
            assert(table_view(p) =~= pv.union_prefer_right(lv));
            assert(table_view(r.local) =~= Tbl::empty());
        }
        r
    }
}

/// The scopes, the symbol table and the errors are well formed.
pub open spec fn ctx_wf(scopes: Scopes, symbols: SymbolTable, errors: Seq<CompileError>) -> bool {
    &&& scopes.wf()
    &&& symbols.wf()
    &&& errors_wf(errors)
}

impl Scopes {
    /// A new variable named `name` of type `ty`; its id.
    fn new_global_symbol(&self, ty: Type, name: Ident, symbols: &mut SymbolTable) -> (r: UniqueId)
        requires
            old(symbols).wf(),
        ensures
            final(symbols).wf(),
            forall|e: Seq<CompileError>|
                (r@, #[trigger] sc_state(*final(symbols), e)) == sc_new_symbol(
                    sc_state(*old(symbols), e),
                    Some(ty),
                    name@,
                ),
    {
        let uid = fresh_id(symbols, &name);
        symbols.insert_global(uid.clone(), ty);
        uid
    }

    /// A new variable named `name` in this scope, of type `ty` if it has
    /// one; its id.
    fn new_var_symbol(&mut self, ty: Option<Type>, name: Ident, symbols: &mut SymbolTable) -> (r: UniqueId)
        requires
            old(self).wf(),
            old(symbols).wf(),
        ensures
            final(self).wf(),
            final(symbols).wf(),
            table_view(final(self).parent) == table_view(old(self).parent),
            table_view(final(self).local) == table_view(old(self).local).insert(name@, r@),
            forall|e: Seq<CompileError>|
                (r@, #[trigger] sc_state(*final(symbols), e)) == sc_new_symbol(
                    sc_state(*old(symbols), e),
                    ty,
                    name@,
                ),
    {
        let uid = match ty {
            Some(t) => self.new_global_symbol(t, name.clone(), symbols),
            None => {
                let uid = fresh_id(symbols, &name);
                symbols.insert_untyped(uid.clone());
                uid
            },
        };
        let ghost l0 = table_view(self.local);
        self.local.insert(name, uid.clone());
        assert(table_view(self.local) =~= l0.insert(name@, uid@));
        uid
    }

    /// The id of the variable `name` in scope; a name not in scope is
    /// reported and gets a new `void` variable.
    fn get_var(&self, name: &Ident, errors: &mut Vec<CompileError>, symbols: &mut SymbolTable) -> (r: UniqueId)
        requires
            ctx_wf(*self, *old(symbols), old(errors)@),
        ensures
            ctx_wf(*self, *final(symbols), final(errors)@),
            (r@, sc_state(*final(symbols), final(errors)@)) == sc_get_var(
                table_view(self.parent),
                table_view(self.local),
                sc_state(*old(symbols), old(errors)@),
                name@,
            ),
    {
        match self.local.get(name) {
            Some(u) => u.clone(),
            None => match self.parent.get(name) {
                Some(u) => u.clone(),
                None => {
                    push_blank(errors);
                    self.new_global_symbol(Type::Void, name.clone(), symbols)
                },
            },
        }
    }

    /// Reports `name` if this scope already defines it.
    fn can_define_var(&self, name: &Ident, errors: &mut Vec<CompileError>)
        requires
            self.wf(),
            errors_wf(old(errors)@),
        ensures
            errors_wf(final(errors)@),
            forall|sy: SymbolTable|
                #[trigger] sc_state(sy, final(errors)@) == sc_can_define(
                    table_view(self.local),
                    sc_state(sy, old(errors)@),
                    name@,
                ),
    {
        if self.local.contains_key(name) {
            push_blank(errors);
        }
    }

    /// The id of the variable `ident` in scope.
    fn check_ident(&self, ident: &Ident, errors: &mut Vec<CompileError>, symbols: &mut SymbolTable) -> (r: Ident)
        requires
            ctx_wf(*self, *old(symbols), old(errors)@),
        ensures
            ctx_wf(*self, *final(symbols), final(errors)@),
            (r@, sc_state(*final(symbols), final(errors)@)) == sc_get_var(
                table_view(self.parent),
                table_view(self.local),
                sc_state(*old(symbols), old(errors)@),
                ident@,
            ),
    {
        self.get_var(ident, errors, symbols)
    }
}

proof fn lemma_exprs_view_push(v: Seq<Expr>, x: Expr)
    ensures
        exprs_view(v.push(x)) == exprs_view(v).push(x@),
{
    lemma_exprs_view_index(v);
    lemma_exprs_view_index(v.push(x));
    assert(exprs_view(v.push(x)) =~= exprs_view(v).push(x@));
}

impl Scopes {
    /// Scope checks `expr` in this scope.
    pub fn check_expr(&mut self, expr: &Expr, errors: &mut Vec<CompileError>, symbols: &mut SymbolTable) -> (r: Expr)
        requires
            ctx_wf(*old(self), *old(symbols), old(errors)@),
        ensures
            ctx_wf(*final(self), *final(symbols), final(errors)@),
            table_view(final(self).parent) == table_view(old(self).parent),
            (r@, table_view(final(self).local), sc_state(*final(symbols), final(errors)@))
                == sc_expr(
                table_view(old(self).parent),
                table_view(old(self).local),
                sc_state(*old(symbols), old(errors)@),
                expr@,
            ),
            no_declare(r@),
        decreases expr, 1int,
    {
        match expr {
            Expr::Literal(lit) => Expr::Literal(lit.copy()),
            Expr::Array(exs) => {
                let v = self.check_exprs(exs, errors, symbols);
                Expr::Array(v)
            },
            Expr::LValue(lv) => Expr::LValue(self.check_lvalue(lv, errors, symbols)),
            Expr::Call(id, params) => {
                let (x, y) = self.check_call(id, params, errors, symbols);
                Expr::Call(x, y)
            },
            Expr::UnaryOp(mode, e) => Expr::UnaryOp(*mode, Box::new(self.check_expr(e, errors, symbols))),
            Expr::BinaryOp(mode, e1, e2) => {
                let a = self.check_expr(e1, errors, symbols);
                let b = self.check_expr(e2, errors, symbols);
                Expr::BinaryOp(*mode, Box::new(a), Box::new(b))
            },
            Expr::Stmt(stmt) => Expr::Stmt(self.check_stmt(stmt, errors, symbols)),
            Expr::Block(..) => self.check_block(expr, errors, symbols),
        }
    }

    /// Scope checks a list of expressions in order, in this scope.
    fn check_exprs(&mut self, exprs: &Vec<Expr>, errors: &mut Vec<CompileError>, symbols: &mut SymbolTable) -> (r: Vec<Expr>)
        requires
            ctx_wf(*old(self), *old(symbols), old(errors)@),
        ensures
            ctx_wf(*final(self), *final(symbols), final(errors)@),
            table_view(final(self).parent) == table_view(old(self).parent),
            (exprs_view(r@), table_view(final(self).local), sc_state(*final(symbols), final(errors)@))
                == sc_exprs(
                table_view(old(self).parent),
                table_view(old(self).local),
                sc_state(*old(symbols), old(errors)@),
                exprs_view(exprs@),
            ),
            no_declare_seq(exprs_view(r@)),
        decreases exprs, 0int,
    {
        let ghost par = table_view(self.parent);
        let ghost l0 = table_view(self.local);
        let ghost st0 = sc_state(*symbols, errors@);
        let ghost esv = exprs_view(exprs@);
        proof {
            lemma_exprs_view_index(exprs@);
            assert(esv.skip(0) =~= esv);
            assert(exprs_view(Seq::<Expr>::empty()) =~= Seq::<SpecExpr>::empty());
            assert(decreases_to!(exprs => exprs@));
        }
        let mut out: Vec<Expr> = Vec::new();
        let mut i: usize = 0;
        while i < exprs.len()
            invariant
                i <= exprs.len(),
                esv == exprs_view(exprs@),
                esv.len() == exprs@.len(),
                forall|j: int| 0 <= j < exprs@.len() ==> #[trigger] esv[j] == exprs@[j]@,
                decreases_to!(exprs => exprs@),
                ctx_wf(*self, *symbols, errors@),
                table_view(self.parent) == par,
                out@.len() == i,
                forall|j: int| 0 <= j < out@.len() ==> no_declare(#[trigger] out@[j]@),
                sc_exprs(par, l0, st0, esv) == ({
                    let rest = sc_exprs(
                        par,
                        table_view(self.local),
                        sc_state(*symbols, errors@),
                        esv.skip(i as int),
                    );
                    (exprs_view(out@) + rest.0, rest.1, rest.2)
                }),
            decreases exprs.len() - i,
        {
            proof {
                assert(decreases_to!(exprs@ => exprs@[i as int]));
                assert(esv.skip(i as int)[0] == esv[i as int]);
                assert(esv.skip(i as int).drop_first() =~= esv.skip(i + 1));
            }
            let e2 = self.check_expr(&exprs[i], errors, symbols);
            proof {
                lemma_exprs_view_push(out@, e2);
                let rest = sc_exprs(
                    par,
                    table_view(self.local),
                    sc_state(*symbols, errors@),
                    esv.skip(i + 1),
                );
                assert(exprs_view(out@) + (seq![e2@] + rest.0) =~= exprs_view(out@).push(e2@)
                    + rest.0);
            }
            out.push(e2);
            i = i + 1;
        }
        proof {
            assert(esv.skip(i as int) =~= Seq::<SpecExpr>::empty());
            assert(exprs_view(out@) + Seq::<SpecExpr>::empty() =~= exprs_view(out@));
            lemma_exprs_view_index(out@);
            lemma_no_declare_seq(exprs_view(out@));
        }
        out
    }

    /// Scope checks a place.
    fn check_lvalue(&mut self, lvalue: &LValue, errors: &mut Vec<CompileError>, symbols: &mut SymbolTable) -> (r: LValue)
        requires
            ctx_wf(*old(self), *old(symbols), old(errors)@),
        ensures
            ctx_wf(*final(self), *final(symbols), final(errors)@),
            table_view(final(self).parent) == table_view(old(self).parent),
            (r@, table_view(final(self).local), sc_state(*final(symbols), final(errors)@))
                == sc_lvalue(
                table_view(old(self).parent),
                table_view(old(self).local),
                sc_state(*old(symbols), old(errors)@),
                lvalue@,
            ),
            no_declare_lvalue(r@),
        decreases lvalue, 0int,
    {
        match lvalue {
            LValue::Ident(id) => LValue::Ident(self.get_var(id, errors, symbols)),
            LValue::ArrayElem(inner, ex) => {
                let a = self.check_lvalue(inner, errors, symbols);
                let b = self.check_expr(ex, errors, symbols);
                LValue::ArrayElem(Box::new(a), Box::new(b))
            },
        }
    }

    /// Scope checks a call: a function not defined so far is recorded as
    /// undefined; the arguments are checked in order.
    fn check_call(&mut self, id: &Ident, params: &Vec<Expr>, errors: &mut Vec<CompileError>, symbols: &mut SymbolTable) -> (r: (UniqueId, Vec<Expr>))
        requires
            ctx_wf(*old(self), *old(symbols), old(errors)@),
        ensures
            ctx_wf(*final(self), *final(symbols), final(errors)@),
            table_view(final(self).parent) == table_view(old(self).parent),
            (
                SpecExpr::Call(r.0@, exprs_view(r.1@)),
                table_view(final(self).local),
                sc_state(*final(symbols), final(errors)@),
            ) == sc_expr(
                table_view(old(self).parent),
                table_view(old(self).local),
                sc_state(*old(symbols), old(errors)@),
                SpecExpr::Call(id@, exprs_view(params@)),
            ),
            no_declare_seq(exprs_view(r.1@)),
        decreases params, 1int,
    {
        let uid = id.clone();
        if !symbols.funcs.contains_key(id) {
            symbols.undefined.insert(uid.clone());
        }
        let ps = self.check_exprs(params, errors, symbols);
        (uid, ps)
    }

    /// Scope checks a block in a new scope inside this one.
    fn check_block(&mut self, expr: &Expr, errors: &mut Vec<CompileError>, symbols: &mut SymbolTable) -> (r: Expr)
        requires
            ctx_wf(*old(self), *old(symbols), old(errors)@),
            expr is Block,
        ensures
            ctx_wf(*final(self), *final(symbols), final(errors)@),
            table_view(final(self).parent) == table_view(old(self).parent),
            (r@, table_view(final(self).local), sc_state(*final(symbols), final(errors)@))
                == sc_expr(
                table_view(old(self).parent),
                table_view(old(self).local),
                sc_state(*old(symbols), old(errors)@),
                expr@,
            ),
            no_declare(r@),
        decreases expr, 0int,
    {
        let (body, ret) = match expr {
            Expr::Block(body, ret) => (body, ret),
            _ => {
                return Expr::Block(Vec::new(), None);
            },
        };
        let mut child = Scopes::from_parent(self);
        let es2 = child.check_exprs(body, errors, symbols);
        let r2 = match ret {
            Some(x) => Some(Box::new(child.check_expr(x, errors, symbols))),
            None => None,
        };
        Expr::Block(es2, r2)
    }

    /// Scope checks a statement; a declaration becomes an assignment to a
    /// new variable of this scope.
    fn check_stmt(&mut self, stmt: &Stmt, errors: &mut Vec<CompileError>, symbols: &mut SymbolTable) -> (r: Stmt)
        requires
            ctx_wf(*old(self), *old(symbols), old(errors)@),
        ensures
            ctx_wf(*final(self), *final(symbols), final(errors)@),
            table_view(final(self).parent) == table_view(old(self).parent),
            (r@, table_view(final(self).local), sc_state(*final(symbols), final(errors)@))
                == sc_stmt(
                table_view(old(self).parent),
                table_view(old(self).local),
                sc_state(*old(symbols), old(errors)@),
                stmt@,
            ),
            no_declare(SpecExpr::Stmt(r@)),
        decreases stmt, 0int,
    {
        match stmt {
            Stmt::If { cond, tt, ff } => {
                let c2 = self.check_expr(cond, errors, symbols);
                let t2 = self.check_expr(tt, errors, symbols);
                let f2 = match ff {
                    Some(x) => Some(Box::new(self.check_expr(x, errors, symbols))),
                    None => None,
                };
                Stmt::If { cond: Box::new(c2), tt: Box::new(t2), ff: f2 }
            },
            Stmt::Declare { id, ty, rvalue } => {
                let ex = self.check_expr(rvalue, errors, symbols);
                self.can_define_var(id, errors);
                let var_type = match ty {
                    Some(t) => Some(t.copy()),
                    None => None,
                };
                let uid = self.new_var_symbol(var_type, id.clone(), symbols);
                Stmt::Assign { id: uid, rvalue: Box::new(ex) }
            },
            Stmt::Assign { id, rvalue } => {
                let uid = self.check_ident(id, errors, symbols);
                let ex = self.check_expr(rvalue, errors, symbols);
                Stmt::Assign { id: uid, rvalue: Box::new(ex) }
            },
            Stmt::While { cond, then } => {
                let c2 = self.check_expr(cond, errors, symbols);
                let t2 = self.check_expr(then, errors, symbols);
                Stmt::While { cond: Box::new(c2), then: Box::new(t2) }
            },
        }
    }
}

impl Scopes {
    /// Scope checks a function in a new scope inside this one: its
    /// parameters become variables of that scope, its signature is
    /// recorded (a second definition of the name is reported), and its
    /// body is checked.
    fn check_func(&self, func: &Func, errors: &mut Vec<CompileError>, symbols: &mut SymbolTable) -> (r: Func)
        requires
            ctx_wf(*self, *old(symbols), old(errors)@),
        ensures
            ctx_wf(*self, *final(symbols), final(errors)@),
            (r@, sc_state(*final(symbols), final(errors)@)) == sc_func(
                table_view(self.parent),
                table_view(self.local),
                sc_state(*old(symbols), old(errors)@),
                func@,
            ),
            no_declare(r@.block),
    {
        let ghost psv = params_view(func.parameters@);
        let ghost st0 = sc_state(*symbols, errors@);
        let mut child = Scopes::from_parent(self);
        let ghost inner = table_view(child.parent);
        let mut new_params: Vec<(UniqueId, Type)> = Vec::new();
        let mut types: Vec<Type> = Vec::new();
        proof {
            assert(psv.skip(0) =~= psv);
            assert(params_view(new_params@) =~= Seq::<(Seq<char>, Type)>::empty());
        }
        let mut i: usize = 0;
        while i < func.parameters.len()
            invariant
                i <= func.parameters.len(),
                psv == params_view(func.parameters@),
                ctx_wf(child, *symbols, errors@),
                table_view(child.parent) == inner,
                new_params@.len() == i,
                types@ == param_types(psv).take(i as int),
                sc_params(Tbl::empty(), st0, psv) == ({
                    let rest = sc_params(
                        table_view(child.local),
                        sc_state(*symbols, errors@),
                        psv.skip(i as int),
                    );
                    (params_view(new_params@) + rest.0, rest.1, rest.2)
                }),
            decreases func.parameters.len() - i,
        {
            let id = &func.parameters[i].0;
            let ty = &func.parameters[i].1;
            proof {
                assert(psv.skip(i as int)[0] == psv[i as int]);
                assert(psv.skip(i as int).drop_first() =~= psv.skip(i + 1));
            }
            child.can_define_var(id, errors);
            let uid = child.new_var_symbol(Some(ty.copy()), id.clone(), symbols);
            proof {
                let rest = sc_params(
                    table_view(child.local),
                    sc_state(*symbols, errors@),
                    psv.skip(i + 1),
                );
                let pushed = new_params@.push((uid, *ty));
                assert(params_view(pushed) =~= params_view(new_params@).push((uid@, *ty)));
                assert(params_view(new_params@) + (seq![(uid@, *ty)] + rest.0) =~= params_view(
                    pushed,
                ) + rest.0);
            }
            new_params.push((uid, ty.copy()));
            types.push(ty.copy());
            proof {
                assert(types@ =~= param_types(psv).take(i + 1));
            }
            i = i + 1;
        }
        proof {
            assert(psv.skip(i as int) =~= Seq::<(Seq<char>, Type)>::empty());
            assert(params_view(new_params@) + Seq::<(Seq<char>, Type)>::empty() =~= params_view(
                new_params@,
            ));
            assert(types@ =~= param_types(psv));
        }
        let ghost st1 = sc_state(*symbols, errors@);
        symbols.undefined.remove(&func.name);
        let info = FunctionTypeInfo { params: types, return_type: func.return_type.copy() };
        let ghost funcs0 = symbols.funcs@;
        let prev = symbols.funcs.insert(func.name.clone(), info);
        proof {
            assert(sigs_of(*symbols) =~= st1.funcs.insert(func.name@, (param_types(psv), func.return_type)));
        }
        if prev.is_some() {
            push_blank(errors);
        }
        let block = child.check_expr(&func.block, errors, symbols);
        Func { name: func.name.clone(), parameters: new_params, return_type: func.return_type.copy(), block }
    }

    /// Scope checks the functions of a program in order.
    fn check_prog(&self, prog: &Prog, errors: &mut Vec<CompileError>, symbols: &mut SymbolTable) -> (r: Prog)
        requires
            ctx_wf(*self, *old(symbols), old(errors)@),
        ensures
            ctx_wf(*self, *final(symbols), final(errors)@),
            (r@, sc_state(*final(symbols), final(errors)@)) == sc_funcs(
                table_view(self.parent),
                table_view(self.local),
                sc_state(*old(symbols), old(errors)@),
                prog@,
            ),
            forall|i: int| 0 <= i < r@.len() ==> no_declare((#[trigger] r@[i]).block),
    {
        let ghost fv = prog@;
        let ghost par = table_view(self.parent);
        let ghost loc = table_view(self.local);
        let ghost st0 = sc_state(*symbols, errors@);
        let mut funcs: Vec<Func> = Vec::new();
        proof {
            assert(fv.skip(0) =~= fv);
            assert(funcs_view(funcs@) =~= Seq::<SpecFunc>::empty());
        }
        let mut i: usize = 0;
        while i < prog.funcs.len()
            invariant
                i <= prog.funcs.len(),
                fv == prog@,
                fv.len() == prog.funcs@.len(),
                ctx_wf(*self, *symbols, errors@),
                par == table_view(self.parent),
                loc == table_view(self.local),
                funcs@.len() == i,
                forall|j: int| 0 <= j < funcs@.len() ==> no_declare((#[trigger] funcs@[j])@.block),
                sc_funcs(par, loc, st0, fv) == ({
                    let rest = sc_funcs(par, loc, sc_state(*symbols, errors@), fv.skip(i as int));
                    (funcs_view(funcs@) + rest.0, rest.1)
                }),
            decreases prog.funcs.len() - i,
        {
            proof {
                assert(fv.skip(i as int)[0] == fv[i as int]);
                assert(fv.skip(i as int).drop_first() =~= fv.skip(i + 1));
            }
            let f2 = self.check_func(&prog.funcs[i], errors, symbols);
            proof {
                let rest = sc_funcs(par, loc, sc_state(*symbols, errors@), fv.skip(i + 1));
                let pushed = funcs@.push(f2);
                assert(funcs_view(pushed) =~= funcs_view(funcs@).push(f2@));
                assert(funcs_view(funcs@) + (seq![f2@] + rest.0) =~= funcs_view(pushed) + rest.0);
            }
            funcs.push(f2);
            i = i + 1;
        }
        proof {
            assert(fv.skip(i as int) =~= Seq::<SpecFunc>::empty());
            assert(funcs_view(funcs@) + Seq::<SpecFunc>::empty() =~= funcs_view(funcs@));
        }
        Prog { funcs }
    }

    /// Scope checks a program: every variable gets a unique id, recorded in
    /// `symbols` with its type (or as untyped); declarations become
    /// assignments; each function's signature is recorded, and functions
    /// called but not defined before are recorded as undefined. Problems
    /// are reported in `errors`.
    pub fn eval_prog(prog: &Prog, errors: &mut Vec<CompileError>, symbols: &mut SymbolTable) -> (r: Prog)
        requires
            old(symbols).wf(),
            errors_wf(old(errors)@),
        ensures
            final(symbols).wf(),
            errors_wf(final(errors)@),
            (r@, sc_state(*final(symbols), final(errors)@)) == sc_funcs(
                Tbl::empty(),
                Tbl::empty(),
                sc_state(*old(symbols), old(errors)@),
                prog@,
            ),
            forall|i: int| 0 <= i < r@.len() ==> no_declare((#[trigger] r@[i]).block),
    {
        let scopes = Self::new();
        scopes.check_prog(prog, errors, symbols)
    }
}

/// The functions recorded: defined, or called before any definition.
pub open spec fn known_funcs(st: ScState) -> Set<Seq<char>> {
    st.funcs.dom().union(st.undefined)
}

/// The variables recorded: with a type, or untyped.
pub open spec fn known_vars(st: ScState) -> Set<Seq<char>> {
    st.globals.dom().union(st.untyped)
}

/// Every id in the table is a recorded variable.
pub open spec fn table_in(t: Tbl, vs: Set<Seq<char>>) -> bool {
    forall|k: Seq<char>| #[trigger] t.contains_key(k) ==> vs.contains(t[k])
}

/// Every function called in `e` is in `fs`, every variable used or
/// assigned is in `vs`, and no declaration is left.
pub open spec fn names_in(fs: Set<Seq<char>>, vs: Set<Seq<char>>, e: SpecExpr) -> bool
    decreases e,
{
    match e {
        SpecExpr::Literal(_) => true,
        SpecExpr::Array(es) => names_in_seq(fs, vs, es),
        SpecExpr::LValue(lv) => names_in_lvalue(fs, vs, lv),
        SpecExpr::Call(id, ps) => fs.contains(id) && names_in_seq(fs, vs, ps),
        SpecExpr::UnaryOp(_, p) => names_in(fs, vs, *p),
        SpecExpr::BinaryOp(_, a, b) => names_in(fs, vs, *a) && names_in(fs, vs, *b),
        SpecExpr::Stmt(s) => match s {
            SpecStmt::Declare { .. } => false,
            SpecStmt::Assign { id, rvalue } => vs.contains(id) && names_in(fs, vs, *rvalue),
            SpecStmt::If { cond, tt, ff } => names_in(fs, vs, *cond) && names_in(fs, vs, *tt) && match ff {
                Some(f) => names_in(fs, vs, *f),
                None => true,
            },
            SpecStmt::While { cond, then } => names_in(fs, vs, *cond) && names_in(fs, vs, *then),
        },
        SpecExpr::Block(es, ret) => names_in_seq(fs, vs, es) && match ret {
            Some(x) => names_in(fs, vs, *x),
            None => true,
        },
    }
}

pub open spec fn names_in_seq(fs: Set<Seq<char>>, vs: Set<Seq<char>>, es: Seq<SpecExpr>) -> bool
    decreases es,
{
    if es.len() == 0 {
        true
    } else {
        names_in(fs, vs, es[0]) && names_in_seq(fs, vs, es.drop_first())
    }
}

pub open spec fn names_in_lvalue(fs: Set<Seq<char>>, vs: Set<Seq<char>>, lv: SpecLValue) -> bool
    decreases lv,
{
    match lv {
        SpecLValue::Ident(id) => vs.contains(id),
        SpecLValue::ArrayElem(inner, ex) => names_in_lvalue(fs, vs, *inner) && names_in(fs, vs, *ex),
    }
}

/// What is recorded stays recorded, and errors are only added after
/// those there were.
pub open spec fn grows(a: ScState, b: ScState) -> bool {
    &&& known_funcs(a).subset_of(known_funcs(b))
    &&& known_vars(a).subset_of(known_vars(b))
    &&& a.errors.len() <= b.errors.len()
    &&& forall|i: int| 0 <= i < a.errors.len() ==> b.errors[i] == a.errors[i]
}

proof fn lemma_names_mono(fs1: Set<Seq<char>>, vs1: Set<Seq<char>>, fs2: Set<Seq<char>>, vs2: Set<Seq<char>>, e: SpecExpr)
    requires
        names_in(fs1, vs1, e),
        fs1.subset_of(fs2),
        vs1.subset_of(vs2),
    ensures
        names_in(fs2, vs2, e),
    decreases e,
{
    match e {
        SpecExpr::Array(es) => lemma_names_mono_seq(fs1, vs1, fs2, vs2, es),
        SpecExpr::LValue(lv) => lemma_names_mono_lvalue(fs1, vs1, fs2, vs2, lv),
        SpecExpr::Call(_, ps) => lemma_names_mono_seq(fs1, vs1, fs2, vs2, ps),
        SpecExpr::UnaryOp(_, p) => lemma_names_mono(fs1, vs1, fs2, vs2, *p),
        SpecExpr::BinaryOp(_, a, b) => {
            lemma_names_mono(fs1, vs1, fs2, vs2, *a);
            lemma_names_mono(fs1, vs1, fs2, vs2, *b);
        },
        SpecExpr::Stmt(s) => match s {
            SpecStmt::Declare { .. } => {},
            SpecStmt::Assign { rvalue, .. } => lemma_names_mono(fs1, vs1, fs2, vs2, *rvalue),
            SpecStmt::If { cond, tt, ff } => {
                lemma_names_mono(fs1, vs1, fs2, vs2, *cond);
                lemma_names_mono(fs1, vs1, fs2, vs2, *tt);
                match ff {
                    Some(f) => lemma_names_mono(fs1, vs1, fs2, vs2, *f),
                    None => {},
                }
            },
            SpecStmt::While { cond, then } => {
                lemma_names_mono(fs1, vs1, fs2, vs2, *cond);
                lemma_names_mono(fs1, vs1, fs2, vs2, *then);
            },
        },
        SpecExpr::Block(es, ret) => {
            lemma_names_mono_seq(fs1, vs1, fs2, vs2, es);
            match ret {
                Some(x) => lemma_names_mono(fs1, vs1, fs2, vs2, *x),
                None => {},
            }
        },
        SpecExpr::Literal(_) => {},
    }
}

proof fn lemma_names_mono_seq(fs1: Set<Seq<char>>, vs1: Set<Seq<char>>, fs2: Set<Seq<char>>, vs2: Set<Seq<char>>, es: Seq<SpecExpr>)
    requires
        names_in_seq(fs1, vs1, es),
        fs1.subset_of(fs2),
        vs1.subset_of(vs2),
    ensures
        names_in_seq(fs2, vs2, es),
    decreases es,
{
    if es.len() > 0 {
        lemma_names_mono(fs1, vs1, fs2, vs2, es[0]);
        lemma_names_mono_seq(fs1, vs1, fs2, vs2, es.drop_first());
    }
}

proof fn lemma_names_mono_lvalue(fs1: Set<Seq<char>>, vs1: Set<Seq<char>>, fs2: Set<Seq<char>>, vs2: Set<Seq<char>>, lv: SpecLValue)
    requires
        names_in_lvalue(fs1, vs1, lv),
        fs1.subset_of(fs2),
        vs1.subset_of(vs2),
    ensures
        names_in_lvalue(fs2, vs2, lv),
    decreases lv,
{
    match lv {
        SpecLValue::Ident(_) => {},
        SpecLValue::ArrayElem(inner, ex) => {
            lemma_names_mono_lvalue(fs1, vs1, fs2, vs2, *inner);
            lemma_names_mono(fs1, vs1, fs2, vs2, *ex);
        },
    }
}

proof fn lemma_new_symbol(st: ScState, ty: Option<Type>, name: Seq<char>)
    ensures
        grows(st, sc_new_symbol(st, ty, name).1),
        known_vars(sc_new_symbol(st, ty, name).1).contains(sc_new_symbol(st, ty, name).0),
{
}

proof fn lemma_get_var(parent: Tbl, local: Tbl, st: ScState, name: Seq<char>)
    requires
        table_in(parent, known_vars(st)),
        table_in(local, known_vars(st)),
    ensures
        grows(st, sc_get_var(parent, local, st, name).1),
        known_vars(sc_get_var(parent, local, st, name).1).contains(sc_get_var(parent, local, st, name).0),
{
    if lookup(parent, local, name) is None {
        lemma_new_symbol(sc_blank(st), Some(Type::Void), name);
    }
}

proof fn lemma_sc_expr(parent: Tbl, local: Tbl, st: ScState, e: SpecExpr)
    requires
        table_in(parent, known_vars(st)),
        table_in(local, known_vars(st)),
    ensures
        ({
            let (e2, l2, st2) = sc_expr(parent, local, st, e);
            grows(st, st2) && table_in(l2, known_vars(st2)) && names_in(known_funcs(st2), known_vars(st2), e2)
        }),
    decreases e,
{
    match e {
        SpecExpr::Literal(_) => {},
        SpecExpr::Array(es) => lemma_sc_exprs(parent, local, st, es),
        SpecExpr::LValue(lv) => lemma_sc_lvalue(parent, local, st, lv),
        SpecExpr::Call(id, ps) => {
            let st1 = if st.funcs.contains_key(id) {
                st
            } else {
                ScState { undefined: st.undefined.insert(id), ..st }
            };
            assert(known_funcs(st1).contains(id));
            assert(grows(st, st1));
            lemma_sc_exprs(parent, local, st1, ps);
        },
        SpecExpr::UnaryOp(_, p) => lemma_sc_expr(parent, local, st, *p),
        SpecExpr::BinaryOp(_, p1, p2) => {
            let (q1, l1, st1) = sc_expr(parent, local, st, *p1);
            lemma_sc_expr(parent, local, st, *p1);
            lemma_sc_expr(parent, l1, st1, *p2);
            let st2 = sc_expr(parent, l1, st1, *p2).2;
            lemma_names_mono(known_funcs(st1), known_vars(st1), known_funcs(st2), known_vars(st2), q1);
        },
        SpecExpr::Stmt(s) => lemma_sc_stmt(parent, local, st, s),
        SpecExpr::Block(es, ret) => {
            let inner = parent.union_prefer_right(local);
            let (es2, l1, st1) = sc_exprs(inner, Map::empty(), st, es);
            lemma_sc_exprs(inner, Map::empty(), st, es);
            match ret {
                Some(x) => {
                    lemma_sc_expr(inner, l1, st1, *x);
                    let st2 = sc_expr(inner, l1, st1, *x).2;
                    lemma_names_mono_seq(known_funcs(st1), known_vars(st1), known_funcs(st2), known_vars(st2), es2);
                },
                None => {},
            }
        },
    }
}

proof fn lemma_sc_exprs(parent: Tbl, local: Tbl, st: ScState, es: Seq<SpecExpr>)
    requires
        table_in(parent, known_vars(st)),
        table_in(local, known_vars(st)),
    ensures
        ({
            let (es2, l2, st2) = sc_exprs(parent, local, st, es);
            grows(st, st2) && table_in(l2, known_vars(st2)) && names_in_seq(known_funcs(st2), known_vars(st2), es2)
        }),
    decreases es,
{
    if es.len() > 0 {
        let (e2, l1, st1) = sc_expr(parent, local, st, es[0]);
        lemma_sc_expr(parent, local, st, es[0]);
        lemma_sc_exprs(parent, l1, st1, es.drop_first());
        let (rest, l2, st2) = sc_exprs(parent, l1, st1, es.drop_first());
        lemma_names_mono(known_funcs(st1), known_vars(st1), known_funcs(st2), known_vars(st2), e2);
        assert((seq![e2] + rest)[0] == e2);
        assert((seq![e2] + rest).drop_first() =~= rest);
    }
}

proof fn lemma_sc_lvalue(parent: Tbl, local: Tbl, st: ScState, lv: SpecLValue)
    requires
        table_in(parent, known_vars(st)),
        table_in(local, known_vars(st)),
    ensures
        ({
            let (lv2, l2, st2) = sc_lvalue(parent, local, st, lv);
            grows(st, st2) && table_in(l2, known_vars(st2)) && names_in_lvalue(known_funcs(st2), known_vars(st2), lv2)
        }),
    decreases lv,
{
    match lv {
        SpecLValue::Ident(id) => lemma_get_var(parent, local, st, id),
        SpecLValue::ArrayElem(inner, ex) => {
            let (i2, l1, st1) = sc_lvalue(parent, local, st, *inner);
            lemma_sc_lvalue(parent, local, st, *inner);
            lemma_sc_expr(parent, l1, st1, *ex);
            let st2 = sc_expr(parent, l1, st1, *ex).2;
            lemma_names_mono_lvalue(known_funcs(st1), known_vars(st1), known_funcs(st2), known_vars(st2), i2);
        },
    }
}

proof fn lemma_sc_stmt(parent: Tbl, local: Tbl, st: ScState, s: SpecStmt)
    requires
        table_in(parent, known_vars(st)),
        table_in(local, known_vars(st)),
    ensures
        ({
            let (s2, l2, st2) = sc_stmt(parent, local, st, s);
            grows(st, st2) && table_in(l2, known_vars(st2)) && names_in(
                known_funcs(st2),
                known_vars(st2),
                SpecExpr::Stmt(s2),
            )
        }),
    decreases s,
{
    match s {
        SpecStmt::If { cond, tt, ff } => {
            let (c2, l1, st1) = sc_expr(parent, local, st, *cond);
            lemma_sc_expr(parent, local, st, *cond);
            let (t2, l2, st2) = sc_expr(parent, l1, st1, *tt);
            lemma_sc_expr(parent, l1, st1, *tt);
            match ff {
                Some(f) => {
                    lemma_sc_expr(parent, l2, st2, *f);
                    let st3 = sc_expr(parent, l2, st2, *f).2;
                    lemma_names_mono(known_funcs(st1), known_vars(st1), known_funcs(st3), known_vars(st3), c2);
                    lemma_names_mono(known_funcs(st2), known_vars(st2), known_funcs(st3), known_vars(st3), t2);
                },
                None => {
                    lemma_names_mono(known_funcs(st1), known_vars(st1), known_funcs(st2), known_vars(st2), c2);
                },
            }
        },
        SpecStmt::Declare { id, ty, rvalue } => {
            let (r2, l1, st1) = sc_expr(parent, local, st, *rvalue);
            lemma_sc_expr(parent, local, st, *rvalue);
            let st2 = sc_can_define(l1, st1, id);
            lemma_new_symbol(st2, ty, id);
            let st3 = sc_new_symbol(st2, ty, id).1;
            lemma_names_mono(known_funcs(st1), known_vars(st1), known_funcs(st3), known_vars(st3), r2);
        },
        SpecStmt::Assign { id, rvalue } => {
            let (uid, st1) = sc_get_var(parent, local, st, id);
            lemma_get_var(parent, local, st, id);
            lemma_sc_expr(parent, local, st1, *rvalue);
        },
        SpecStmt::While { cond, then } => {
            let (c2, l1, st1) = sc_expr(parent, local, st, *cond);
            lemma_sc_expr(parent, local, st, *cond);
            lemma_sc_expr(parent, l1, st1, *then);
            let st2 = sc_expr(parent, l1, st1, *then).2;
            lemma_names_mono(known_funcs(st1), known_vars(st1), known_funcs(st2), known_vars(st2), c2);
        },
    }
}

proof fn lemma_sc_params(local: Tbl, st: ScState, ps: Seq<(Seq<char>, Type)>)
    requires
        table_in(local, known_vars(st)),
    ensures
        ({
            let (ps2, l2, st2) = sc_params(local, st, ps);
            grows(st, st2) && table_in(l2, known_vars(st2))
        }),
    decreases ps.len(),
{
    if ps.len() > 0 {
        let (id, ty) = ps[0];
        let st1 = sc_can_define(local, st, id);
        lemma_new_symbol(st1, Some(ty), id);
        let (uid, st2) = sc_new_symbol(st1, Some(ty), id);
        lemma_sc_params(local.insert(id, uid), st2, ps.drop_first());
    }
}

proof fn lemma_sc_func(parent: Tbl, local: Tbl, st: ScState, f: SpecFunc)
    requires
        table_in(parent, known_vars(st)),
        table_in(local, known_vars(st)),
    ensures
        ({
            let (f2, st2) = sc_func(parent, local, st, f);
            grows(st, st2) && names_in(known_funcs(st2), known_vars(st2), f2.block)
        }),
{
    let inner = parent.union_prefer_right(local);
    let (ps2, l1, st1) = sc_params(Map::empty(), st, f.parameters);
    lemma_sc_params(Map::empty(), st, f.parameters);
    let st2 = ScState {
        undefined: st1.undefined.remove(f.name),
        funcs: st1.funcs.insert(f.name, (param_types(f.parameters), f.return_type)),
        errors: if st1.funcs.contains_key(f.name) {
            st1.errors.push(spec_default_error())
        } else {
            st1.errors
        },
        ..st1
    };
    assert(grows(st1, st2));
    lemma_sc_expr(inner, l1, st2, f.block);
}

/// Scope checking functions only adds: what was recorded stays recorded,
/// errors are only appended, and every name left in the checked functions
/// is recorded at the end.
pub proof fn lemma_sc_funcs(parent: Tbl, local: Tbl, st: ScState, fs: Seq<SpecFunc>)
    requires
        table_in(parent, known_vars(st)),
        table_in(local, known_vars(st)),
    ensures
        ({
            let (fs2, st2) = sc_funcs(parent, local, st, fs);
            &&& grows(st, st2)
            &&& fs2.len() == fs.len()
            &&& forall|i: int|
                0 <= i < fs2.len() ==> names_in(known_funcs(st2), known_vars(st2), #[trigger] fs2[i].block)
        }),
    decreases fs.len(),
{
    if fs.len() > 0 {
        let (f2, st1) = sc_func(parent, local, st, fs[0]);
        lemma_sc_func(parent, local, st, fs[0]);
        lemma_sc_funcs(parent, local, st1, fs.drop_first());
        let (rest, st2) = sc_funcs(parent, local, st1, fs.drop_first());
        lemma_names_mono(known_funcs(st1), known_vars(st1), known_funcs(st2), known_vars(st2), f2.block);
        let out = seq![f2] + rest;
        assert forall|i: int| 0 <= i < out.len() implies names_in(known_funcs(st2), known_vars(st2), #[trigger] out[i].block) by {
            if i > 0 {
                assert(out[i] == rest[i - 1]);
            }
        }
    }
}

/// Every recorded variable's id is `name$k` for a name without the
/// separator and a number below the next fresh one.
pub open spec fn ids_below(st: ScState) -> bool {
    forall|id: Seq<char>|
        #[trigger] known_vars(st).contains(id) ==> exists|name: Seq<char>, k: nat|
            !name.contains(SPECIAL_CHAR) && k < fresh_index(st) && id == spec_global_id(name, k)
}

/// Law: a new variable gets an id that no variable had. When every
/// recorded id is `name$k` with `k` below the fresh number, variables with
/// and without a type are kept apart, and there is room for one more, the
/// id of a new variable (with a name without the separator) is not
/// recorded yet; after it is recorded the same holds, with the fresh
/// number one larger.
pub proof fn law_new_symbol_fresh(st: ScState, ty: Option<Type>, name: Seq<char>)
    requires
        ids_below(st),
        !name.contains(SPECIAL_CHAR),
        st.globals.dom().finite(),
        st.untyped.finite(),
        st.globals.dom().disjoint(st.untyped),
        st.globals.len() + st.untyped.len() < usize::MAX,
    ensures
        ({
            let (uid, st2) = sc_new_symbol(st, ty, name);
            &&& !known_vars(st).contains(uid)
            &&& known_vars(st2) == known_vars(st).insert(uid)
            &&& fresh_index(st2) == fresh_index(st) + 1
            &&& st2.globals.dom().finite()
            &&& st2.untyped.finite()
            &&& st2.globals.dom().disjoint(st2.untyped)
            &&& ids_below(st2)
        }),
{
    let f = fresh_index(st);
    let (uid, st2) = sc_new_symbol(st, ty, name);
    assert(uid == spec_global_id(name, f));
    if known_vars(st).contains(uid) {
        let (n2, k) = choose|n2: Seq<char>, k: nat|
            !n2.contains(SPECIAL_CHAR) && k < fresh_index(st) && uid == spec_global_id(n2, k);
        law_global_id_injective(name, f, n2, k);
    }
    match ty {
        Some(t) => {
            assert(st2.globals.dom() =~= st.globals.dom().insert(uid));
        },
        None => {
            assert(st2.untyped =~= st.untyped.insert(uid));
        },
    }
    assert(known_vars(st2) =~= known_vars(st).insert(uid));
    assert forall|id: Seq<char>| #[trigger] known_vars(st2).contains(id) implies exists|n3: Seq<char>, k: nat|
        !n3.contains(SPECIAL_CHAR) && k < fresh_index(st2) && id == spec_global_id(n3, k) by {
        if id == uid {
            assert(!name.contains(SPECIAL_CHAR) && f < fresh_index(st2) && id == spec_global_id(name, f));
        } else {
            assert(known_vars(st).contains(id));
        }
    }
}

/// The functions called in `e`.
pub open spec fn calls_in(e: SpecExpr) -> Set<Seq<char>>
    decreases e,
{
    match e {
        SpecExpr::Literal(_) => Set::empty(),
        SpecExpr::Array(es) => calls_in_seq(es),
        SpecExpr::LValue(lv) => calls_in_lvalue(lv),
        SpecExpr::Call(id, ps) => calls_in_seq(ps).insert(id),
        SpecExpr::UnaryOp(_, p) => calls_in(*p),
        SpecExpr::BinaryOp(_, a, b) => calls_in(*a).union(calls_in(*b)),
        SpecExpr::Stmt(s) => match s {
            SpecStmt::Declare { rvalue, .. } => calls_in(*rvalue),
            SpecStmt::Assign { rvalue, .. } => calls_in(*rvalue),
            SpecStmt::If { cond, tt, ff } => calls_in(*cond).union(calls_in(*tt)).union(
                match ff {
                    Some(f) => calls_in(*f),
                    None => Set::empty(),
                },
            ),
            SpecStmt::While { cond, then } => calls_in(*cond).union(calls_in(*then)),
        },
        SpecExpr::Block(es, ret) => calls_in_seq(es).union(
            match ret {
                Some(x) => calls_in(*x),
                None => Set::empty(),
            },
        ),
    }
}

/// The functions called in a list of expressions.
pub open spec fn calls_in_seq(es: Seq<SpecExpr>) -> Set<Seq<char>>
    decreases es,
{
    if es.len() == 0 {
        Set::empty()
    } else {
        calls_in(es[0]).union(calls_in_seq(es.drop_first()))
    }
}

/// The functions called in the index expressions of a place.
pub open spec fn calls_in_lvalue(lv: SpecLValue) -> Set<Seq<char>>
    decreases lv,
{
    match lv {
        SpecLValue::Ident(_) => Set::empty(),
        SpecLValue::ArrayElem(inner, ex) => calls_in_lvalue(*inner).union(calls_in(*ex)),
    }
}

/// The functions called in the bodies of `fs`.
pub open spec fn calls_in_funcs(fs: Seq<SpecFunc>) -> Set<Seq<char>>
    decreases fs.len(),
{
    if fs.len() == 0 {
        Set::empty()
    } else {
        calls_in(fs[0].block).union(calls_in_funcs(fs.drop_first()))
    }
}

/// The names of the functions `fs` define.
pub open spec fn func_names(fs: Seq<SpecFunc>) -> Set<Seq<char>>
    decreases fs.len(),
{
    if fs.len() == 0 {
        Set::empty()
    } else {
        func_names(fs.drop_first()).insert(fs[0].name)
    }
}

/// From `st` to `st2`, code calling the functions `c` was checked: the
/// signatures stay, and each of `c` without a signature is now undefined.
pub open spec fn calls_recorded(st: ScState, st2: ScState, c: Set<Seq<char>>) -> bool {
    &&& st2.funcs == st.funcs
    &&& st2.undefined == st.undefined.union(c.difference(st.funcs.dom()))
}

proof fn lemma_calls_expr(parent: Tbl, local: Tbl, st: ScState, e: SpecExpr)
    ensures
        calls_recorded(st, sc_expr(parent, local, st, e).2, calls_in(e)),
    decreases e,
{
    match e {
        SpecExpr::Literal(_) => {
            assert(st.undefined.union(Set::<Seq<char>>::empty().difference(st.funcs.dom())) =~= st.undefined);
        },
        SpecExpr::Array(es) => lemma_calls_exprs(parent, local, st, es),
        SpecExpr::LValue(lv) => lemma_calls_lvalue(parent, local, st, lv),
        SpecExpr::Call(id, ps) => {
            let st1 = if st.funcs.contains_key(id) {
                st
            } else {
                ScState { undefined: st.undefined.insert(id), ..st }
            };
            lemma_calls_exprs(parent, local, st1, ps);
            let st2 = sc_expr(parent, local, st, e).2;
            assert(st2.undefined =~= st.undefined.union(calls_in(e).difference(st.funcs.dom())));
        },
        SpecExpr::UnaryOp(_, p) => lemma_calls_expr(parent, local, st, *p),
        SpecExpr::BinaryOp(_, p1, p2) => {
            let (q1, l1, st1) = sc_expr(parent, local, st, *p1);
            lemma_calls_expr(parent, local, st, *p1);
            lemma_calls_expr(parent, l1, st1, *p2);
            let st2 = sc_expr(parent, local, st, e).2;
            assert(st2.undefined =~= st.undefined.union(calls_in(e).difference(st.funcs.dom())));
        },
        SpecExpr::Stmt(s) => lemma_calls_stmt(parent, local, st, s),
        SpecExpr::Block(es, ret) => {
            let inner = parent.union_prefer_right(local);
            let (es2, l1, st1) = sc_exprs(inner, Map::empty(), st, es);
            lemma_calls_exprs(inner, Map::empty(), st, es);
            match ret {
                Some(x) => {
                    lemma_calls_expr(inner, l1, st1, *x);
                    let st2 = sc_expr(parent, local, st, e).2;
                    assert(st2.undefined =~= st.undefined.union(calls_in(e).difference(st.funcs.dom())));
                },
                None => {
                    assert(st1.undefined =~= st.undefined.union(calls_in(e).difference(st.funcs.dom())));
                },
            }
        },
    }
}

proof fn lemma_calls_exprs(parent: Tbl, local: Tbl, st: ScState, es: Seq<SpecExpr>)
    ensures
        calls_recorded(st, sc_exprs(parent, local, st, es).2, calls_in_seq(es)),
    decreases es,
{
    if es.len() == 0 {
        assert(st.undefined.union(Set::<Seq<char>>::empty().difference(st.funcs.dom())) =~= st.undefined);
    } else {
        let (e2, l1, st1) = sc_expr(parent, local, st, es[0]);
        lemma_calls_expr(parent, local, st, es[0]);
        lemma_calls_exprs(parent, l1, st1, es.drop_first());
        let st2 = sc_exprs(parent, local, st, es).2;
        assert(st2.undefined =~= st.undefined.union(calls_in_seq(es).difference(st.funcs.dom())));
    }
}

proof fn lemma_calls_lvalue(parent: Tbl, local: Tbl, st: ScState, lv: SpecLValue)
    ensures
        calls_recorded(st, sc_lvalue(parent, local, st, lv).2, calls_in_lvalue(lv)),
    decreases lv,
{
    match lv {
        SpecLValue::Ident(id) => {
            assert(st.undefined.union(Set::<Seq<char>>::empty().difference(st.funcs.dom())) =~= st.undefined);
        },
        SpecLValue::ArrayElem(inner, ex) => {
            let (i2, l1, st1) = sc_lvalue(parent, local, st, *inner);
            lemma_calls_lvalue(parent, local, st, *inner);
            lemma_calls_expr(parent, l1, st1, *ex);
            let st2 = sc_lvalue(parent, local, st, lv).2;
            assert(st2.undefined =~= st.undefined.union(calls_in_lvalue(lv).difference(st.funcs.dom())));
        },
    }
}

proof fn lemma_calls_stmt(parent: Tbl, local: Tbl, st: ScState, s: SpecStmt)
    ensures
        calls_recorded(st, sc_stmt(parent, local, st, s).2, calls_in(SpecExpr::Stmt(s))),
    decreases s,
{
    let c = calls_in(SpecExpr::Stmt(s));
    match s {
        SpecStmt::If { cond, tt, ff } => {
            let (c2, l1, st1) = sc_expr(parent, local, st, *cond);
            lemma_calls_expr(parent, local, st, *cond);
            let (t2, l2, st2) = sc_expr(parent, l1, st1, *tt);
            lemma_calls_expr(parent, l1, st1, *tt);
            match ff {
                Some(f) => {
                    lemma_calls_expr(parent, l2, st2, *f);
                    let st3 = sc_expr(parent, l2, st2, *f).2;
                    assert(st3.undefined =~= st.undefined.union(c.difference(st.funcs.dom())));
                },
                None => {
                    assert(st2.undefined =~= st.undefined.union(c.difference(st.funcs.dom())));
                },
            }
        },
        SpecStmt::Declare { id, ty, rvalue } => {
            lemma_calls_expr(parent, local, st, *rvalue);
        },
        SpecStmt::Assign { id, rvalue } => {
            let (uid, st1) = sc_get_var(parent, local, st, id);
            lemma_calls_expr(parent, local, st1, *rvalue);
        },
        SpecStmt::While { cond, then } => {
            let (c2, l1, st1) = sc_expr(parent, local, st, *cond);
            lemma_calls_expr(parent, local, st, *cond);
            lemma_calls_expr(parent, l1, st1, *then);
            let st2 = sc_expr(parent, l1, st1, *then).2;
            assert(st2.undefined =~= st.undefined.union(c.difference(st.funcs.dom())));
        },
    }
}

proof fn lemma_calls_params(local: Tbl, st: ScState, ps: Seq<(Seq<char>, Type)>)
    ensures
        sc_params(local, st, ps).2.funcs == st.funcs,
        sc_params(local, st, ps).2.undefined == st.undefined,
    decreases ps.len(),
{
    if ps.len() > 0 {
        let (id, ty) = ps[0];
        let st1 = sc_can_define(local, st, id);
        let (uid, st2) = sc_new_symbol(st1, Some(ty), id);
        lemma_calls_params(local.insert(id, uid), st2, ps.drop_first());
    }
}

/// Scope checking functions, from a state whose undefined functions have
/// no signature: the signatures recorded are those there were and those
/// of `fs`, and the undefined functions are those there were and those
/// called in `fs`, less every function with a signature.
pub proof fn lemma_calls_funcs(parent: Tbl, local: Tbl, st: ScState, fs: Seq<SpecFunc>)
    requires
        st.undefined.disjoint(st.funcs.dom()),
    ensures
        sc_funcs(parent, local, st, fs).1.funcs.dom() == st.funcs.dom().union(func_names(fs)),
        sc_funcs(parent, local, st, fs).1.undefined == st.undefined.union(calls_in_funcs(fs)).difference(
            sc_funcs(parent, local, st, fs).1.funcs.dom(),
        ),
    decreases fs.len(),
{
    if fs.len() == 0 {
        assert(st.funcs.dom().union(Set::empty()) =~= st.funcs.dom());
        assert(st.undefined.union(Set::empty()).difference(st.funcs.dom()) =~= st.undefined);
    } else {
        let f = fs[0];
        let inner = parent.union_prefer_right(local);
        let (ps2, l1, st1) = sc_params(Map::empty(), st, f.parameters);
        lemma_calls_params(Map::empty(), st, f.parameters);
        let st2 = ScState {
            undefined: st1.undefined.remove(f.name),
            funcs: st1.funcs.insert(f.name, (param_types(f.parameters), f.return_type)),
            errors: if st1.funcs.contains_key(f.name) {
                st1.errors.push(spec_default_error())
            } else {
                st1.errors
            },
            ..st1
        };
        lemma_calls_expr(inner, l1, st2, f.block);
        let st3 = sc_func(parent, local, st, f).1;
        assert(st3.funcs.dom() =~= st.funcs.dom().insert(f.name));
        assert(st3.undefined =~= st.undefined.union(calls_in(f.block)).difference(st3.funcs.dom()));
        assert(st3.undefined.disjoint(st3.funcs.dom()));
        lemma_calls_funcs(parent, local, st3, fs.drop_first());
        let st4 = sc_funcs(parent, local, st, fs).1;
        assert(st4.funcs.dom() =~= st.funcs.dom().union(func_names(fs)));
        assert(st4.undefined =~= st.undefined.union(calls_in_funcs(fs)).difference(st4.funcs.dom()));
    }
}

} // verus!
