//! Access-control failures, as far as the error taxonomy needs them; token
//! issuance and pattern matching stay outside this crate.

use vstd::prelude::*;

verus! {

/// An access-control failure.
#[derive(Debug, Clone, Copy, PartialEq, Eq, Structural)]
pub enum Error {
    /// The caller may not discover whether the resource exists.
    NoDiscoveryPermission,
}

impl Error {
    pub open spec fn message_spec(&self) -> Seq<char> {
        "No discovery permission"@
    }

    pub fn message(&self) -> (r: &'static str)
        ensures
            r@ == self.message_spec(),
    {
        "No discovery permission"
    }
}

} // verus!
