use vstd::prelude::*;

verus! {

/// A single participant, as seen on its own.
#[derive(Debug, Clone)]
pub struct Agent {
    pub tagged: bool,
}

impl Default for Agent {
    fn default() -> (r: Self)
        ensures
            !r.tagged,
    {
        Agent { tagged: false }
    }
}

} // verus!
