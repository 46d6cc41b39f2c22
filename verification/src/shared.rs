//! Trusted declarations for the atomically reference-counted shared-ownership
//! primitive that the expression tree and the identifier types store their
//! payloads behind. Verus reads only the contracts; the bodies call into the
//! standard library.

use vstd::prelude::*;

use std::sync::Arc;

use crate::ExprKind;

verus! {

/// Relies on `Arc::clone`: the clone shares the same allocation, so it holds
/// the same value as the original.
#[verifier::external_body]
pub(crate) fn arc_clone<T>(v: &Arc<T>) -> (r: Arc<T>)
    ensures
        r == *v,
{
    Arc::clone(v)
}

/// Relies on `Arc::try_unwrap`: when this handle is the only holder the inner
/// value is returned as it stands; otherwise the untouched handle comes back.
#[verifier::external_body]
pub(crate) fn arc_try_unwrap<T>(v: Arc<T>) -> (r: Result<T, Arc<T>>)
    ensures
        match r {
            Ok(t) => t == v,
            Err(e) => e == v,
        },
{
    Arc::try_unwrap(v)
}

/// Relies on `Arc::make_mut`: when other holders share the allocation the
/// value is cloned first — with the `Clone` of [`ExprKind`], which is
/// verified to keep the shape — so the borrow is private and starts out
/// shaped as the old value; the handle ends up holding whatever the borrow
/// holds.
#[verifier::external_body]
pub(crate) fn arc_make_mut_kind(v: &mut Arc<ExprKind>) -> (r: &mut ExprKind)
    ensures
        r@ == old(v)@,
        final(v)@ == final(r)@,
{
    Arc::make_mut(v)
}

/// Relies on `String::push`: appends one character at the end.
pub assume_specification[ std::string::String::push ](s: &mut std::string::String, ch: char)
    ensures
        final(s)@ == old(s)@.push(ch),
;

/// Relies on `Arc::strong_count`: the count of live handles to the
/// allocation, which is at least the one this call went through.
#[verifier::external_body]
pub(crate) fn arc_strong_count<T>(v: &Arc<T>) -> (r: usize)
    ensures
        r >= 1,
{
    Arc::strong_count(v)
}

} // verus!
