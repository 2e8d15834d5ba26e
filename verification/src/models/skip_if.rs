//! The default values of flags and the tests by which an entry is left out.

use vstd::prelude::*;

verus! {

/// The default of a flag that is off unless set.
#[must_use]
pub fn false_() -> (r: bool)
    ensures
        !r,
{
    false
}

/// The default of a flag that is on unless cleared.
#[must_use]
pub fn true_() -> (r: bool)
    ensures
        r,
{
    true
}

/// Whether the flag is off.
#[must_use]
pub fn is_false(x: &bool) -> (r: bool)
    ensures
        r == !*x,
{
    !*x
}

/// Whether the flag is on.
#[must_use]
pub fn is_true(b: &bool) -> (r: bool)
    ensures
        r == *b,
{
    *b
}

/// Whether the option holds nothing.
#[must_use]
pub fn is_none<T>(option: &Option<T>) -> (r: bool)
    ensures
        r == (*option is None),
{
    option.is_none()
}

} // verus!
