//! Semantic checking: scope checking, then type checking.
use vstd::prelude::*;

use crate::frontend::errors::{CompileError, SpecCompileError};
use crate::frontend::parsers::func::{Func, SpecFunc};
use crate::frontend::parsers::{funcs_view, Prog};
use crate::frontend::semantic::scope::{
    calls_in_funcs, errors_wf, func_names, known_funcs, known_vars, lemma_calls_funcs, lemma_sc_funcs,
    names_in, sc_funcs, ScState, Scopes, Tbl,
};
use crate::frontend::semantic::symbol::{undefined_error, SymbolTable};
use crate::frontend::semantic::types::{errors_view, sigs_of, tc_funcs, TcState, TypeChecker};

pub mod scope;
pub mod symbol;
pub mod types;

verus! {

/// A program that passed semantic checking, with its symbol table.
pub struct SemProg {
    pub funcs: Vec<Func>,
    pub symbols: SymbolTable,
}

/// The state before any checking: no symbols, no errors.
pub open spec fn empty_state() -> ScState {
    ScState {
        funcs: Map::empty(),
        globals: Map::empty(),
        undefined: Set::empty(),
        untyped: Set::empty(),
        errors: seq![],
    }
}

/// The program after scope checking, and the state after it.
pub open spec fn scoped(p: Seq<SpecFunc>) -> (Seq<SpecFunc>, ScState) {
    sc_funcs(Tbl::empty(), Tbl::empty(), empty_state(), p)
}

/// The state after type checking the scope-checked program.
pub open spec fn typed(p: Seq<SpecFunc>) -> TcState {
    let (p2, st1) = scoped(p);
    tc_funcs(
        st1.funcs,
        TcState { globals: st1.globals, untyped: st1.untyped, errors: st1.errors },
        p2,
    )
}

/// `es` holds one error per function in `names`.
pub open spec fn undefined_errors(es: Seq<SpecCompileError>, names: Set<Seq<char>>) -> bool {
    &&& es.len() == names.len()
    &&& forall|i: int| 0 <= i < es.len() ==> exists|n: Seq<char>| #[trigger]
        names.contains(n) && #[trigger] es[i] == undefined_error(n)
    &&& forall|n: Seq<char>| #[trigger]
        names.contains(n) ==> exists|i: int| 0 <= i < es.len() && es[i] == undefined_error(n)
}

/// What checking the program `p` gives: one error per function called but
/// never defined, if there is one; otherwise the errors of scope and type
/// checking, if there are any; otherwise the checked program and its
/// symbol table.
pub open spec fn semantic_outcome(p: Seq<SpecFunc>, r: Result<SemProg, Vec<CompileError>>) -> bool {
    let (p2, st1) = scoped(p);
    &&& !st1.undefined.is_empty() ==> (r matches Err(es) && undefined_errors(
        errors_view(es@),
        st1.undefined,
    ) && errors_wf(es@))
    &&& st1.undefined.is_empty() && typed(p).errors.len() == 0 ==> (r matches Ok(sp) && {
        &&& funcs_view(sp.funcs@) == p2
        &&& sp.symbols.wf()
        &&& sigs_of(sp.symbols) == st1.funcs
        &&& sp.symbols.globals@ == typed(p).globals
        &&& sp.symbols.untyped@ == typed(p).untyped
        &&& sp.symbols.undefined@.is_empty()
    })
    &&& st1.undefined.is_empty() && typed(p).errors.len() > 0 ==> (r matches Err(es)
        && errors_view(es@) == typed(p).errors && errors_wf(es@))
}

/// Checks a parsed program: scope checking, then (if every function called
/// is defined) type checking. A function called but never defined gives
/// one error per such function, and nothing else is reported; otherwise
/// the errors of both passes are reported, if there are any.
pub fn semantic_check(prog: &Prog) -> (r: Result<SemProg, Vec<CompileError>>)
    ensures
        semantic_outcome(prog@, r),
{
    let mut symbols = SymbolTable::new_buffer();
    let mut errors: Vec<CompileError> = Vec::new();
    proof {
        assert(errors_view(errors@) =~= Seq::<SpecCompileError>::empty());
        assert(sigs_of(symbols) =~= Map::empty());
    }
    let new_prog = Scopes::eval_prog(prog, &mut errors, &mut symbols);
    proof {
        symbols.undefined.lemma_len();
    }
    let symbols = match SymbolTable::from_buffer(symbols) {
        Ok(s) => s,
        Err(es) => {
            proof {
                let names = symbols.undefined@;
                let ev = errors_view(es@);
                assert forall|i: int| 0 <= i < ev.len() implies exists|n: Seq<char>| #[trigger]
                    names.contains(n) && #[trigger] ev[i] == undefined_error(n) by {
                    assert(names.contains(symbols.undefined.items@[i]@));
                }
                assert forall|n: Seq<char>| #[trigger] names.contains(n) implies exists|i: int|
                    0 <= i < ev.len() && ev[i] == undefined_error(n) by {
                    let i = choose|i: int|
                        0 <= i < symbols.undefined.items@.len() && (
                        #[trigger] symbols.undefined.items@[i])@ == n;
                    assert(ev[i] == undefined_error(n));
                }
            }
            return Err(es);
        },
    };
    let mut checker = TypeChecker::new(errors, symbols);
    checker.check_prog(&new_prog);
    if checker.errors.len() == 0 {
        Ok(SemProg { funcs: new_prog.funcs, symbols: checker.symbols })
    } else {
        Err(checker.errors)
    }
}

/// Checking accepts the program `p`.
pub open spec fn sem_accepts(p: Seq<SpecFunc>) -> bool {
    scoped(p).1.undefined.is_empty() && typed(p).errors.len() == 0
}

/// `errs` are the errors that checking the program `p` reports.
pub open spec fn sem_errors(p: Seq<SpecFunc>, errs: Seq<SpecCompileError>) -> bool {
    if !scoped(p).1.undefined.is_empty() {
        undefined_errors(errs, scoped(p).1.undefined)
    } else {
        errs == typed(p).errors
    }
}

/// What [`semantic_outcome`] says of success and of the errors.
pub proof fn lemma_outcome(p: Seq<SpecFunc>, r: Result<SemProg, Vec<CompileError>>)
    requires
        semantic_outcome(p, r),
    ensures
        sem_accepts(p) <==> r is Ok,
        r matches Err(es) ==> sem_errors(p, errors_view(es@)) && errors_wf(es@),
{
}

/// Law: scope checking resolves every name. In the checked program, every
/// function called is recorded (defined, or called but not defined), every
/// variable used or assigned is recorded (with a type or untyped), and no
/// declaration is left. When no function is undefined, every call names a
/// function whose signature is recorded.
pub proof fn law_scope_resolves_names(p: Seq<SpecFunc>)
    ensures
        scoped(p).0.len() == p.len(),
        forall|i: int|
            0 <= i < scoped(p).0.len() ==> names_in(
                known_funcs(scoped(p).1),
                known_vars(scoped(p).1),
                #[trigger] scoped(p).0[i].block,
            ),
        scoped(p).1.undefined.is_empty() ==> known_funcs(scoped(p).1) == scoped(p).1.funcs.dom(),
{
    lemma_sc_funcs(Tbl::empty(), Tbl::empty(), empty_state(), p);
    let st = scoped(p).1;
    if st.undefined.is_empty() {
        assert(known_funcs(st) =~= st.funcs.dom());
    }
}

/// Law: the functions that scope checking leaves undefined are exactly
/// those called somewhere in the program and defined nowhere in it, a call
/// before the definition and one after it alike; the functions with a
/// signature are exactly those the program defines. So the undefined
/// functions and the defined ones never overlap, and none is undefined
/// exactly when every function called is defined.
pub proof fn law_undefined_functions(p: Seq<SpecFunc>)
    ensures
        scoped(p).1.funcs.dom() == func_names(p),
        scoped(p).1.undefined == calls_in_funcs(p).difference(func_names(p)),
        scoped(p).1.undefined.disjoint(scoped(p).1.funcs.dom()),
        scoped(p).1.undefined.is_empty() <==> calls_in_funcs(p).subset_of(func_names(p)),
{
    let st = empty_state();
    assert(st.funcs.dom() =~= Set::<Seq<char>>::empty());
    lemma_calls_funcs(Tbl::empty(), Tbl::empty(), st, p);
    let u = scoped(p).1.undefined;
    assert(st.funcs.dom().union(func_names(p)) =~= func_names(p));
    assert(st.undefined.union(calls_in_funcs(p)) =~= calls_in_funcs(p));
    if u.is_empty() {
        assert forall|x: Seq<char>| calls_in_funcs(p).contains(x) implies func_names(p).contains(x) by {
            if !func_names(p).contains(x) {
                assert(u.contains(x));
            }
        }
    }
    if calls_in_funcs(p).subset_of(func_names(p)) {
        assert(u =~= Set::<Seq<char>>::empty());
    }
}

} // verus!
