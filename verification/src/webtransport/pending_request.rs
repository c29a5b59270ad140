use vstd::prelude::*;

verus! {

/// A request for a session that the server has not answered.
#[derive(Debug, Clone, Copy, PartialEq, Eq, Structural)]
pub struct PendingRequest {
    pub session_id: u64,
}

impl PendingRequest {
    pub fn new(session_id: u64) -> (r: Self)
        ensures
            r.session_id == session_id,
    {
        Self { session_id }
    }

    pub fn session_id(&self) -> (r: u64)
        ensures
            r == self.session_id,
    {
        self.session_id
    }
}

} // verus!
