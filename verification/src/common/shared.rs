use std::rc::Rc;
use vstd::prelude::*;

verus! {

/// `Rc::clone` of the standard library: a second handle to the same value,
/// so what it holds is what the first holds.
#[verifier::external_body]
pub(crate) fn share<T>(value: &Rc<T>) -> (other: Rc<T>)
    ensures
        other == *value,
{
    Rc::clone(value)
}

} // verus!
