use crate::stream_id::StreamID;
use vstd::prelude::*;

verus! {

/// The state of a subscription that this endpoint serves.
#[derive(Debug, Clone, Copy, PartialEq, Eq, Structural)]
pub struct OutTrack {
    /// The stream on which the objects of the track go out, once one is
    /// open.
    pub current_stream_id: Option<StreamID>,
}

impl OutTrack {
    pub fn new() -> (t: Self)
        ensures
            t.current_stream_id is None,
    {
        Self { current_stream_id: None }
    }

    pub fn writable(&self) -> (r: bool)
        ensures
            r,
    {
        true
    }
}

} // verus!
