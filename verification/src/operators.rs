//! The two unit steps that can be applied to a counter.

use vstd::prelude::*;

verus! {

/// Step a counter up by one.
pub struct Add;

/// Step a counter down by one, stopping at zero.
pub struct Sub;

} // verus!
