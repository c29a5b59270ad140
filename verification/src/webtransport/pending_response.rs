use vstd::prelude::*;

verus! {

/// An answer to a request for a session that is still to be sent.
#[derive(Debug, Clone, Copy, PartialEq, Eq, Structural)]
pub struct PendingResponse {
    pub session_id: u64,
}

impl PendingResponse {
    pub fn new(session_id: u64) -> (r: Self)
        ensures
            r.session_id == session_id,
    {
        Self { session_id }
    }

    pub fn session_id(&self) -> (r: u64)
        ensures
            r == self.session_id,
    {
        self.session_id
    }
}

} // verus!
