//! Positional callees of the shapes that a declaration can take: one whose
//! parameters all have defaults, one whose parameter has none, and two with
//! nothing to return. They hand back what they were given, so that a check of
//! a rewritten call can see which argument reached which parameter.

use vstd::prelude::*;

verus! {

/// Returns its three arguments as they came, in their order.
pub fn foo(a: isize, b: Option<isize>, c: Option<isize>) -> (r: (
    isize,
    Option<isize>,
    Option<isize>,
))
    ensures
        r == (a, b, c),
{
    (a, b, c)
}

/// Returns its argument.
pub fn bar(a: isize) -> (r: isize)
    ensures
        r == a,
{
    a
}

/// Takes nothing and does nothing.
pub fn baz() {
}

/// Takes a value of the unit type and does nothing.
pub fn baz2(_a: ()) {
}

} // verus!
