//! The object behind the configuration window's greeting.
use vstd::prelude::*;
use vstd::string::StringExecFns;

verus! {

/// The state of the greeting object; it holds nothing.
#[derive(Debug, PartialEq, Eq)]
pub struct HelloRust {}

impl Default for HelloRust {
    fn default() -> (r: HelloRust) {
        HelloRust {}
    }
}

impl HelloRust {
    /// The line that the greeting prints.
    pub fn greeting(&self) -> (r: String)
        ensures
            r@ == "Hello world!"@,
    {
        String::from_str("Hello world!")
    }
}

} // verus!
