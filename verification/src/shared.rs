use vstd::prelude::*;
use std::rc::Rc;

verus! {

/// Another pointer to the value behind `value` (`Rc::clone`): what it points to is
/// the same value.
#[verifier::external_body]
pub(crate) fn share<T>(value: &Rc<T>) -> (r: Rc<T>)
    ensures
        *r == **value,
{
    Rc::clone(value)
}

} // verus!
