use vstd::prelude::*;

verus! {

/// Command-line options.
pub struct Cli {
    pub reset: bool,
}

impl Cli {
    /// Whether the store is to be rebuilt from scratch.
    pub fn is_reset(&self) -> (r: bool)
        ensures
            r == self.reset,
    {
        self.reset
    }
}

} // verus!
