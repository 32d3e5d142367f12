//! Errors of the H.264 layer.

use vstd::prelude::*;

verus! {

#[derive(Debug, Clone, Copy, PartialEq, Eq, Structural)]
pub enum Error {
    /// The byte stream does not begin with a start code.
    AnnexBStartCodeMissing,
}

} // verus!
