//! Helpers that run a closure on a value and pass the value (or the
//! closure's result) on, for building values in one expression.
use vstd::prelude::*;

verus! {

/// Scoping helpers available on every type.
pub trait ScopeMethods: Sized {
    /// `f` applied to the value.
    fn scope<F, R>(self, f: F) -> (r: R) where F: FnOnce(&Self) -> R
        requires
            call_requires(f, (&self,)),
        ensures
            call_ensures(f, (&self,), r),
    ;

    /// `f` applied to the value, which it may change.
    fn scope_mut<F, R>(self, f: F) -> (r: R) where F: FnOnce(&mut Self) -> R
        requires
            forall|v: &mut Self| *v == self ==> call_requires(f, (v,)),
        ensures
            exists|v: &mut Self| *v == self && call_ensures(f, (v,), r),
    ;

    /// The value, after `f` has looked at it.
    fn also<F>(self, f: F) -> (r: Self) where F: FnOnce(&Self)
        requires
            call_requires(f, (&self,)),
        ensures
            r == self,
    ;

    /// The value, after `f` has changed it.
    fn also_mut<F>(self, f: F) -> (r: Self) where F: FnOnce(&mut Self)
        requires
            forall|v: &mut Self| *v == self ==> call_requires(f, (v,)),
        ensures
            exists|v: &mut Self| *v == self && call_ensures(f, (v,), ()) && r == *final(v),
    ;
}

impl<T> ScopeMethods for T {
    fn scope<F, R>(self, f: F) -> (r: R) where F: FnOnce(&Self) -> R {
        f(&self)
    }

    fn scope_mut<F, R>(self, f: F) -> (r: R) where F: FnOnce(&mut Self) -> R {
        let mut value = self;
        f(&mut value)
    }

    fn also<F>(self, f: F) -> (r: T) where F: FnOnce(&Self) {
        f(&self);
        self
    }

    fn also_mut<F>(self, f: F) -> (r: T) where F: FnOnce(&mut Self) {
        let mut value = self;
        f(&mut value);
        value
    }
}

} // verus!
