//! The cell in which a registry is published once and then shared.

use once_cell::race::OnceBox;
use vstd::prelude::*;

verus! {

/// `once_cell::race::OnceBox`: a cell that can be written once and is read
/// through a shared reference. Nothing is known of what one holds.
#[verifier::external_type_specification]
#[verifier::external_body]
#[verifier::reject_recursive_types(T)]
pub struct ExOnceBox<T>(once_cell::race::OnceBox<T>);

/// `OnceBox::get`: what the cell holds, if it was written. Nothing is
/// claimed of the result: whether the cell was written is a matter of what
/// ran before.
#[verifier::external_body]
pub(crate) fn published<'a, T>(cell: &'a OnceBox<T>) -> (held: Option<&'a T>) {
    cell.get()
}

/// `OnceBox::get_or_init`: writes `value` to the cell if it is empty, and
/// returns what the cell holds then. Nothing is claimed of the result: it is
/// `value`, or what another caller wrote first.
#[verifier::external_body]
pub(crate) fn publish<'a, T>(cell: &'a OnceBox<T>, value: Box<T>) -> (held: &'a T) {
    cell.get_or_init(|| value)
}

} // verus!
