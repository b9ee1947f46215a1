//! Interned text: canonical, cheaply comparable handles for repeated strings.
//!
//! The pool itself lives in the `internment` crate. Nothing in here is proved: each
//! item states what the rest of the library relies on.

use internment::Intern;
use vstd::prelude::*;

verus! {

/// The outside handle type `internment::Intern`, carried through as an opaque value.
#[verifier::external_type_specification]
#[verifier::external_body]
#[verifier::reject_recursive_types(T)]
pub struct ExIntern<T: 'static + ?Sized>(Intern<T>);

/// The text that an interned handle stands for.
pub uninterp spec fn interned_text(handle: Intern<String>) -> Seq<char>;

/// Calls `Intern::new`, which looks the value up in the pool and adds it when it is
/// missing: the handle returned stands for exactly the text given.
#[verifier::external_body]
pub(crate) fn intern_string(text: String) -> (handle: Intern<String>)
    ensures
        interned_text(handle) == text@,
{
    Intern::new(text)
}

/// Calls `Intern::eq`, a pointer comparison. The pool keeps a single pointer for each
/// distinct value, so two handles are equal exactly when their texts are.
#[verifier::external_body]
pub(crate) fn same_handle(a: Intern<String>, b: Intern<String>) -> (same: bool)
    ensures
        same == (interned_text(a) == interned_text(b)),
{
    a == b
}

/// Calls `Intern::as_ref`, which hands out the pooled string behind the handle.
#[verifier::external_body]
pub(crate) fn handle_text(handle: Intern<String>) -> (text: &'static String)
    ensures
        text@ == interned_text(handle),
{
    handle.as_ref()
}

} // verus!
