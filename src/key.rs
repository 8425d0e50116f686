//! Identity keys: the call site of a declaration.
use vstd::prelude::*;

verus! {

/// Identifies where in a build function a declaration was made.
///
/// Two declarations from the same call site carry equal keys; declarations
/// from different call sites carry distinct ones.
#[derive(Clone, Copy, Debug, PartialEq, Eq, Hash, Structural)]
pub struct Caller {
    /// A number standing for the source file.
    pub file: u32,
    pub line: u32,
    pub column: u32,
}

impl Caller {
    pub fn new(file: u32, line: u32, column: u32) -> (r: Caller)
        ensures
            r == (Caller { file, line, column }),
    {
        Caller { file, line, column }
    }
}

} // verus!
