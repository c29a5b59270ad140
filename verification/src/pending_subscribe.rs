use crate::wire::TrackAlias;
use vstd::prelude::*;

verus! {

/// A subscription that was asked for and that the peer has not answered.
#[derive(Debug, Clone, Copy, PartialEq, Eq, Structural)]
pub struct PendingSubscribe {
    /// The track alias that the subscriber picked. Set on drafts 07 to 11.
    pub track_alias: Option<TrackAlias>,
}

impl PendingSubscribe {
    pub fn new(track_alias: Option<TrackAlias>) -> (p: Self)
        ensures
            p.track_alias == track_alias,
    {
        Self { track_alias }
    }

    /// The track alias that the subscriber picked. Set on drafts 07 to 11.
    pub fn track_alias(&self) -> (r: Option<TrackAlias>)
        ensures
            r == self.track_alias,
    {
        self.track_alias
    }
}

} // verus!
