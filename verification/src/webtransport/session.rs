use vstd::prelude::*;

verus! {

#[derive(Debug, Clone, Copy, PartialEq, Eq, Structural)]
pub enum State {
    Pending,
    HttpError,
    Established,
}

/// One WebTransport session.
#[derive(Debug, Clone, Copy, PartialEq, Eq, Structural)]
pub struct Session {
    pub state: State,
}

impl Session {
    /// A session whose request has been sent and not answered.
    pub fn connect(_session_id: u64) -> (s: Self)
        ensures
            s.state == State::Pending,
    {
        Self { state: State::Pending }
    }

    /// A session that both sides have agreed on.
    pub fn accept(_session_id: u64) -> (s: Self)
        ensures
            s.state == State::Established,
    {
        Self { state: State::Established }
    }
}

} // verus!
