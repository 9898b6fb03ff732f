//! Values with more than one owner.

use std::sync::Arc;
use vstd::prelude::*;

verus! {

/// `Arc::clone` gives another owner of the same value.
#[verifier::external_body]
pub(crate) fn share<T>(value: &Arc<T>) -> (r: Arc<T>)
    ensures
        r == *value,
{
    Arc::clone(value)
}

} // verus!
