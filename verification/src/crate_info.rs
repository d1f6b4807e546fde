//! The crate's own name, for display by a host application.

use vstd::prelude::*;

verus! {

/// The name of this crate.
pub fn crate_name() -> (r: &'static str)
    ensures
        r@ == "fraktal"@,
{
    "fraktal"
}

} // verus!
