use vstd::prelude::*;
use vstd::string::StringExecFns;

verus! {

/// The one failure value of this crate.  Both structural mismatches in the
/// schedule text and range violations during expansion are reported through
/// it; callers must treat any failure as "reject this schedule".
#[derive(Debug)]
pub struct Error;

impl Error {
    /// A human-readable description of the failure, offered in place of a
    /// `Display` implementation.
    pub fn message(&self) -> (r: String)
        ensures
            r@ == "something went wrong!"@,
    {
        String::from_str("something went wrong!")
    }
}

} // verus!
