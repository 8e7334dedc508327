//! The symbol table: the signatures of functions, the types of variables
//! (under their unique ids), the functions called but not (yet) defined,
//! and the variables whose type is not yet known.
use vstd::prelude::*;

use crate::frontend::errors::{spec_default_error, CompileError, SpecCompileError};
use crate::frontend::parsers::types::Type;
use crate::frontend::Ident;
use crate::table::{StrMap, StrSet};
use crate::text::{
    decimal, decimal_chars, extend_chars, extend_vec, lemma_decimal_injective, str_to_chars,
    string_from_chars,
};

verus! {

/// The character that separates a variable's name from its number in its
/// unique id; identifiers cannot contain it.
pub const SPECIAL_CHAR: char = '$';

/// The unique id of a variable.
pub type UniqueId = String;

/// The signature of a function.
pub struct FunctionTypeInfo {
    pub params: Vec<Type>,
    pub return_type: Type,
}

impl View for FunctionTypeInfo {
    type V = (Seq<Type>, Type);

    open spec fn view(&self) -> (Seq<Type>, Type) {
        (self.params@, self.return_type)
    }
}

impl FunctionTypeInfo {
    /// A copy of the signature.
    pub fn copy(&self) -> (r: Self)
        ensures
            r@ == self@,
    {
        let mut params: Vec<Type> = Vec::new();
        let mut i: usize = 0;
        while i < self.params.len()
            invariant
                i <= self.params@.len(),
                params@ == self.params@.take(i as int),
            decreases self.params.len() - i,
        {
            params.push(self.params[i].copy());
            i = i + 1;
            assert(params@ =~= self.params@.take(i as int));
        }
        assert(self.params@.take(i as int) =~= self.params@);
        FunctionTypeInfo { params, return_type: self.return_type.copy() }
    }
}

/// The symbol table.
pub struct SymbolTable {
    pub funcs: StrMap<FunctionTypeInfo>,
    pub globals: StrMap<Type>,
    pub undefined: StrSet,
    pub untyped: StrSet,
}

/// The unique id made of a name and a number: `name$number`.
pub open spec fn spec_global_id(name: Seq<char>, n: nat) -> Seq<char> {
    name + seq![SPECIAL_CHAR] + decimal(n)
}

/// The error for a call of a function that is not defined anywhere.
pub open spec fn undefined_error(name: Seq<char>) -> SpecCompileError {
    SpecCompileError { summary: "Call to undefined function "@ + name, ..spec_default_error() }
}

/// The unique id `name$n`.
pub fn gen_id(name: Ident, n: usize) -> (r: UniqueId)
    ensures
        r@ == spec_global_id(name@, n as nat),
{
    let mut v = str_to_chars(name.as_str());
    v.push(SPECIAL_CHAR);
    let digits = decimal_chars(n);
    extend_vec(&mut v, &digits);
    string_from_chars(v.as_slice())
}

impl SymbolTable {
    pub open spec fn wf(&self) -> bool {
        &&& self.funcs.wf()
        &&& self.globals.wf()
        &&& self.undefined.wf()
        &&& self.untyped.wf()
    }

    /// An empty table.
    pub fn new() -> (r: Self)
        ensures
            r.wf(),
            r.funcs@ == Map::<Seq<char>, FunctionTypeInfo>::empty(),
            r.globals@ == Map::<Seq<char>, Type>::empty(),
            r.undefined@ == Set::<Seq<char>>::empty(),
            r.untyped@ == Set::<Seq<char>>::empty(),
    {
        SymbolTable {
            funcs: StrMap::new(),
            globals: StrMap::new(),
            undefined: StrSet::new(),
            untyped: StrSet::new(),
        }
    }

    /// An empty table for a pass to fill; passes share a table by mutable
    /// reference.
    pub fn new_buffer() -> (r: Self)
        ensures
            r.wf(),
            r.funcs@ == Map::<Seq<char>, FunctionTypeInfo>::empty(),
            r.globals@ == Map::<Seq<char>, Type>::empty(),
            r.undefined@ == Set::<Seq<char>>::empty(),
            r.untyped@ == Set::<Seq<char>>::empty(),
    {
        Self::new()
    }

    /// The table a pass has filled, if every function it saw called is
    /// defined; otherwise one error per function that is not.
    pub fn from_buffer(buffer: SymbolTable) -> (r: Result<Self, Vec<CompileError>>)
        requires
            buffer.wf(),
        ensures
            buffer.undefined@.is_empty() ==> r == Ok::<SymbolTable, Vec<CompileError>>(buffer),
            !buffer.undefined@.is_empty() ==> (r matches Err(es) && es@.len()
                == buffer.undefined.items@.len() && forall|i: int|
                0 <= i < es@.len() ==> (#[trigger] es@[i])@ == undefined_error(
                    buffer.undefined.items@[i]@,
                ) && es@[i].wf()),
    {
        if buffer.undefined.is_empty() {
            Ok(buffer)
        } else {
            proof {
                assert(buffer.undefined@.contains(buffer.undefined.items@[0]@));
            }
            let mut es: Vec<CompileError> = Vec::new();
            let mut i: usize = 0;
            while i < buffer.undefined.items.len()
                invariant
                    i <= buffer.undefined.items@.len(),
                    es@.len() == i,
                    forall|j: int|
                        0 <= j < i ==> (#[trigger] es@[j])@ == undefined_error(
                            buffer.undefined.items@[j]@,
                        ) && es@[j].wf(),
                decreases buffer.undefined.items.len() - i,
            {
                let mut msg: Vec<char> = Vec::new();
                extend_chars(&mut msg, "Call to undefined function ");
                extend_chars(&mut msg, buffer.undefined.items[i].as_str());
                es.push(CompileError::raw_error(string_from_chars(msg.as_slice())));
                i = i + 1;
            }
            Err(es)
        }
    }

    /// Records a definition (`Some`) or a call (`None`) of the function `id`.
    /// A definition removes `id` from the undefined functions and returns
    /// `Some(id)` when it replaces an earlier definition; a call of a
    /// function not defined so far records it as undefined.
    pub fn insert_func(&mut self, id: UniqueId, info: Option<FunctionTypeInfo>) -> (r: Option<UniqueId>)
        requires
            old(self).wf(),
        ensures
            final(self).wf(),
            func_step(*old(self), *final(self), id@, info is Some),
            final(self).globals == old(self).globals,
            final(self).untyped == old(self).untyped,
            match info {
                Some(t) => {
                    &&& final(self).funcs@ == old(self).funcs@.insert(id@, t)
                    &&& final(self).undefined@ == old(self).undefined@.remove(id@)
                    &&& (r matches Some(x) ==> x@ == id@)
                    &&& (r is Some <==> old(self).funcs@.contains_key(id@))
                },
                None => {
                    &&& final(self).funcs == old(self).funcs
                    &&& final(self).undefined@ == if old(self).funcs@.contains_key(id@) {
                        old(self).undefined@
                    } else {
                        old(self).undefined@.insert(id@)
                    }
                    &&& r is None
                },
            },
    {
        match info {
            Some(t) => {
                self.undefined.remove(&id);
                let key = id.clone();
                match self.funcs.insert(key, t) {
                    Some(_) => Some(id),
                    None => None,
                }
            },
            None => {
                if !self.funcs.contains_key(&id) {
                    self.undefined.insert(id);
                }
                None
            },
        }
    }

    /// A fresh unique id for the variable `id`: `id$n`, where `n` is the
    /// number of variables in the table.
    pub fn new_global_id(&self, id: Ident) -> (r: UniqueId)
        requires
            self.wf(),
        ensures
            r@ == spec_global_id(id@, self.globals@.len()),
    {
        gen_id(id, self.globals.len())
    }

    /// Sets the type of the variable `id`; returns `Some(id)` when it had one.
    pub fn insert_global(&mut self, id: UniqueId, ty: Type) -> (r: Option<UniqueId>)
        requires
            old(self).wf(),
        ensures
            final(self).wf(),
            final(self).globals@ == old(self).globals@.insert(id@, ty),
            final(self).funcs == old(self).funcs,
            final(self).undefined == old(self).undefined,
            final(self).untyped == old(self).untyped,
            r matches Some(x) ==> x@ == id@,
            r is Some <==> old(self).globals@.contains_key(id@),
    {
        let key = id.clone();
        match self.globals.insert(key, ty) {
            Some(_) => Some(id),
            None => None,
        }
    }

    /// Records the variable `id` as one whose type is not known yet;
    /// returns `Some(id)` when it was not recorded so before.
    pub fn insert_untyped(&mut self, id: UniqueId) -> (r: Option<UniqueId>)
        requires
            old(self).wf(),
        ensures
            final(self).wf(),
            final(self).untyped@ == old(self).untyped@.insert(id@),
            final(self).funcs == old(self).funcs,
            final(self).globals == old(self).globals,
            final(self).undefined == old(self).undefined,
            r matches Some(x) ==> x@ == id@,
            r is Some <==> !old(self).untyped@.contains(id@),
    {
        let key = id.clone();
        if self.untyped.insert(key) {
            Some(id)
        } else {
            None
        }
    }

    /// The type of the variable `id`, if it has one.
    pub fn get_global(&self, id: &UniqueId) -> (r: Option<&Type>)
        requires
            self.wf(),
        ensures
            r matches Some(t) ==> self.globals@.contains_key(id@) && *t == self.globals@[id@],
            r is None ==> !self.globals@.contains_key(id@),
    {
        self.globals.get(id)
    }

    /// Gives the variable `id`, if its type was not known, the type `ty`.
    pub fn set_untyped(&mut self, id: UniqueId, ty: Type)
        requires
            old(self).wf(),
        ensures
            final(self).wf(),
            final(self).funcs == old(self).funcs,
            final(self).undefined == old(self).undefined,
            final(self).untyped@ == old(self).untyped@.remove(id@),
            final(self).globals@ == if old(self).untyped@.contains(id@) {
                old(self).globals@.insert(id@, ty)
            } else {
                old(self).globals@
            },
    {
        if self.untyped.remove(&id) {
            self.globals.insert(id, ty);
        }
    }

    /// The signature of the function `id`, if it is defined.
    pub fn get_func_info(&self, id: &UniqueId) -> (r: Option<&FunctionTypeInfo>)
        requires
            self.wf(),
        ensures
            r matches Some(t) ==> self.funcs@.contains_key(id@) && *t == self.funcs@[id@],
            r is None ==> !self.funcs@.contains_key(id@),
    {
        self.funcs.get(id)
    }
}

/// Law: a variable's type reads back as written. After `insert_global`
/// records `ty` for `id` (taking `before` to `after`), `get_global(id)`
/// gives `ty`, and every other variable keeps what it had.
pub proof fn law_global_read_after_write(before: SymbolTable, after: SymbolTable, id: Seq<char>, ty: Type)
    requires
        after.globals@ == before.globals@.insert(id, ty),
    ensures
        after.globals@.contains_key(id),
        after.globals@[id] == ty,
        forall|k: Seq<char>|
            k != id ==> (#[trigger] after.globals@.contains_key(k) == before.globals@.contains_key(k)
                && (before.globals@.contains_key(k) ==> after.globals@[k] == before.globals@[k])),
{
}

/// Law: an untyped variable gets its type once. After `insert_untyped(id)`
/// and then `set_untyped(id, first)`, the variable has type `first` and is
/// no longer untyped; a later `set_untyped(id, second)` changes nothing.
pub proof fn law_untyped_set_once(
    t0: SymbolTable,
    t1: SymbolTable,
    t2: SymbolTable,
    t3: SymbolTable,
    id: Seq<char>,
    first: Type,
    second: Type,
)
    requires
        t1.untyped@ == t0.untyped@.insert(id),
        t1.globals@ == t0.globals@,
        t2.untyped@ == t1.untyped@.remove(id),
        t2.globals@ == (if t1.untyped@.contains(id) {
            t1.globals@.insert(id, first)
        } else {
            t1.globals@
        }),
        t3.untyped@ == t2.untyped@.remove(id),
        t3.globals@ == (if t2.untyped@.contains(id) {
            t2.globals@.insert(id, second)
        } else {
            t2.globals@
        }),
    ensures
        t2.globals@.contains_key(id) && t2.globals@[id] == first,
        !t2.untyped@.contains(id),
        t3.globals@ == t2.globals@,
        t3.untyped@ == t2.untyped@,
{
    assert(t3.untyped@ =~= t2.untyped@);
}

/// Law: a function called before its definition is not reported once it
/// is defined. After `insert_func(id, None)` and then
/// `insert_func(id, Some(info))`, `id` is not undefined and
/// `get_func_info(id)` gives `info`.
pub proof fn law_call_then_define(
    t0: SymbolTable,
    t1: SymbolTable,
    t2: SymbolTable,
    id: Seq<char>,
    info: FunctionTypeInfo,
)
    requires
        t1.funcs == t0.funcs,
        t1.undefined@ == (if t0.funcs@.contains_key(id) {
            t0.undefined@
        } else {
            t0.undefined@.insert(id)
        }),
        t2.funcs@ == t1.funcs@.insert(id, info),
        t2.undefined@ == t1.undefined@.remove(id),
    ensures
        !t2.undefined@.contains(id),
        t2.funcs@.contains_key(id),
        t2.funcs@[id] == info,
        forall|k: Seq<char>| k != id ==> (#[trigger] t2.undefined@.contains(k) == t0.undefined@.contains(k)),
{
}

/// Law: a unique id names one variable and one number. For names without
/// the separator, `name$n` and `other$m` are the same id only when the
/// names and the numbers are the same.
pub proof fn law_global_id_injective(name: Seq<char>, n: nat, other: Seq<char>, m: nat)
    requires
        !name.contains(SPECIAL_CHAR),
        !other.contains(SPECIAL_CHAR),
        spec_global_id(name, n) == spec_global_id(other, m),
    ensures
        name == other,
        n == m,
{
    let id = spec_global_id(name, n);
    let a = name.len();
    let b = other.len();
    assert(id[a as int] == SPECIAL_CHAR);
    assert(spec_global_id(other, m)[b as int] == SPECIAL_CHAR);
    if a < b {
        assert(id[a as int] == other[a as int]);
        assert(other.contains(SPECIAL_CHAR));
    } else if b < a {
        assert(id[b as int] == name[b as int]);
        assert(name.contains(SPECIAL_CHAR));
    }
    assert(name =~= id.subrange(0, a as int));
    assert(other =~= id.subrange(0, b as int));
    assert(decimal(n) =~= id.subrange(a as int + 1, id.len() as int));
    assert(decimal(m) =~= spec_global_id(other, m).subrange(b as int + 1, id.len() as int));
    lemma_decimal_injective(n, m);
}

/// One call of `insert_func(id, …)`, seen through the functions with a
/// signature and the undefined ones: a definition (`defines`) records `id`
/// and removes it from the undefined functions; a call of a function with
/// no signature records it as undefined.
pub open spec fn func_step(before: SymbolTable, after: SymbolTable, id: Seq<char>, defines: bool) -> bool {
    if defines {
        &&& after.funcs@.dom() == before.funcs@.dom().insert(id)
        &&& after.undefined@ == before.undefined@.remove(id)
    } else {
        &&& after.funcs@.dom() == before.funcs@.dom()
        &&& after.undefined@ == if before.funcs@.contains_key(id) {
            before.undefined@
        } else {
            before.undefined@.insert(id)
        }
    }
}

/// The ids passed to `insert_func` with `defines` equal to `d`.
pub open spec fn ids_with(calls: Seq<(Seq<char>, bool)>, d: bool) -> Set<Seq<char>> {
    Set::new(|x: Seq<char>| exists|i: int| 0 <= i < calls.len() && #[trigger] calls[i] == (x, d))
}

proof fn lemma_func_steps(tables: Seq<SymbolTable>, calls: Seq<(Seq<char>, bool)>, k: int)
    requires
        0 <= k <= calls.len(),
        tables.len() == calls.len() + 1,
        tables[0].funcs@.dom().is_empty(),
        tables[0].undefined@.is_empty(),
        forall|i: int| 0 <= i < calls.len() ==> func_step(tables[i], tables[i + 1], (#[trigger] calls[i]).0, calls[i].1),
    ensures
        tables[k].funcs@.dom() == ids_with(calls.take(k), true),
        tables[k].undefined@ == ids_with(calls.take(k), false).difference(ids_with(calls.take(k), true)),
    decreases k,
{
    if k == 0 {
        assert(ids_with(calls.take(0), true) =~= Set::<Seq<char>>::empty());
        assert(ids_with(calls.take(0), false) =~= Set::<Seq<char>>::empty());
        assert(tables[0].funcs@.dom() =~= Set::<Seq<char>>::empty());
        assert(tables[0].undefined@ =~= Set::<Seq<char>>::empty());
    } else {
        lemma_func_steps(tables, calls, k - 1);
        let (id, d) = calls[k - 1];
        assert(func_step(tables[k - 1], tables[k], calls[k - 1].0, calls[k - 1].1));
        let pre = calls.take(k - 1);
        let cur = calls.take(k);
        assert forall|x: Seq<char>| ids_with(cur, true).contains(x) <==> (ids_with(pre, true).contains(x) || (d && x == id)) by {
            if ids_with(cur, true).contains(x) {
                let i = choose|i: int| 0 <= i < cur.len() && #[trigger] cur[i] == (x, true);
                if i < k - 1 {
                    assert(pre[i] == (x, true));
                }
            }
            if ids_with(pre, true).contains(x) {
                let i = choose|i: int| 0 <= i < pre.len() && #[trigger] pre[i] == (x, true);
                assert(cur[i] == (x, true));
            }
            if d && x == id {
                assert(cur[k - 1] == (x, true));
            }
        }
        assert forall|x: Seq<char>| ids_with(cur, false).contains(x) <==> (ids_with(pre, false).contains(x) || (!d && x == id)) by {
            if ids_with(cur, false).contains(x) {
                let i = choose|i: int| 0 <= i < cur.len() && #[trigger] cur[i] == (x, false);
                if i < k - 1 {
                    assert(pre[i] == (x, false));
                }
            }
            if ids_with(pre, false).contains(x) {
                let i = choose|i: int| 0 <= i < pre.len() && #[trigger] pre[i] == (x, false);
                assert(cur[i] == (x, false));
            }
            if !d && x == id {
                assert(cur[k - 1] == (x, false));
            }
        }
        assert(tables[k].funcs@.dom() =~= ids_with(cur, true));
        assert(tables[k].undefined@ =~= ids_with(cur, false).difference(ids_with(cur, true)));
    }
}

/// Law: whatever the order of the calls, the undefined functions are those
/// called but never defined. When `tables[0]` is empty and each
/// `tables[i + 1]` is `tables[i]` after `insert_func(calls[i].0, …)`
/// (with a signature when `calls[i].1`), the last table's functions with a
/// signature are the ids defined, its undefined functions are the ids called
/// (without a signature) minus those defined, the two never overlap, and
/// there is no undefined function exactly when every id called is defined.
pub proof fn law_undefined_is_called_minus_defined(tables: Seq<SymbolTable>, calls: Seq<(Seq<char>, bool)>)
    requires
        tables.len() == calls.len() + 1,
        tables[0].funcs@.dom().is_empty(),
        tables[0].undefined@.is_empty(),
        forall|i: int| 0 <= i < calls.len() ==> func_step(tables[i], tables[i + 1], (#[trigger] calls[i]).0, calls[i].1),
    ensures
        tables[calls.len() as int].funcs@.dom() == ids_with(calls, true),
        tables[calls.len() as int].undefined@ == ids_with(calls, false).difference(ids_with(calls, true)),
        tables[calls.len() as int].undefined@.disjoint(tables[calls.len() as int].funcs@.dom()),
        tables[calls.len() as int].undefined@.is_empty() <==> ids_with(calls, false).subset_of(ids_with(calls, true)),
{
    let n = calls.len() as int;
    lemma_func_steps(tables, calls, n);
    assert(calls.take(n) =~= calls);
    let u = tables[n].undefined@;
    let c = ids_with(calls, false);
    let d = ids_with(calls, true);
    if u.is_empty() {
        assert forall|x: Seq<char>| c.contains(x) implies d.contains(x) by {
            assert(!u.contains(x));
        }
    }
    if c.subset_of(d) {
        assert(u =~= Set::<Seq<char>>::empty());
    }
}

} // verus!
