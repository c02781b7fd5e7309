use vstd::prelude::*;

verus! {

/// Handle through which the process environment is inspected. It carries no
/// state of its own: every reader is interchangeable with every other.
pub struct EnvReader {}

impl EnvReader {
    /// Creates a reader.
    pub fn new() -> (reader: Self)
        ensures
            reader == (EnvReader {}),
    {
        EnvReader {}
    }
}

} // verus!
