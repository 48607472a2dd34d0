use vstd::prelude::*;

verus! {

/// A `major.minor` version number as printed in the reference pages.
#[derive(Debug, Clone, Copy, PartialEq, Eq, Structural)]
pub struct Version {
    pub major: u32,
    pub minor: u32,
}

} // verus!
