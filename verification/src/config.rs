use crate::wire::Version;
use crate::wire::MOQ_VERSION_DRAFT_07;
use crate::wire::MOQ_VERSION_DRAFT_08;
use crate::wire::MOQ_VERSION_DRAFT_09;
use crate::wire::MOQ_VERSION_DRAFT_10;
use crate::wire::MOQ_VERSION_DRAFT_11;
use crate::wire::MOQ_VERSION_DRAFT_12;
use crate::wire::MOQ_VERSION_DRAFT_13;
use crate::wire::MOQ_VERSION_LITE_01_BY_KIXELATED;
use vstd::prelude::*;

verus! {

pub struct Config {
    /// The draft in which a client writes its setup message, and the draft
    /// that a server selects.
    pub setup_version: Version,
    /// The drafts that a client offers.
    pub supported_versions: Vec<Version>,
    /// Subscribe even where the peer has not allowed another request.
    pub ignore_max_request_quota: bool,
}

/// The drafts that a client offers where nothing else is configured.
pub open spec fn default_supported_versions() -> Seq<Version> {
    seq![
        MOQ_VERSION_DRAFT_07,
        MOQ_VERSION_DRAFT_08,
        MOQ_VERSION_DRAFT_09,
        MOQ_VERSION_DRAFT_10,
        MOQ_VERSION_DRAFT_11,
        MOQ_VERSION_DRAFT_12,
        MOQ_VERSION_DRAFT_13,
        MOQ_VERSION_LITE_01_BY_KIXELATED,
    ]
}

impl Default for Config {
    fn default() -> (c: Self)
        ensures
            c.setup_version == MOQ_VERSION_DRAFT_13,
            c.supported_versions@ == default_supported_versions(),
            !c.ignore_max_request_quota,
    {
        let mut supported_versions: Vec<Version> = Vec::new();
        supported_versions.push(MOQ_VERSION_DRAFT_07);
        supported_versions.push(MOQ_VERSION_DRAFT_08);
        supported_versions.push(MOQ_VERSION_DRAFT_09);
        supported_versions.push(MOQ_VERSION_DRAFT_10);
        supported_versions.push(MOQ_VERSION_DRAFT_11);
        supported_versions.push(MOQ_VERSION_DRAFT_12);
        supported_versions.push(MOQ_VERSION_DRAFT_13);
        supported_versions.push(MOQ_VERSION_LITE_01_BY_KIXELATED);
        assert(supported_versions@ =~= default_supported_versions());
        Self {
            setup_version: MOQ_VERSION_DRAFT_13,
            supported_versions,
            ignore_max_request_quota: false,
        }
    }
}

impl Clone for Config {
    fn clone(&self) -> (c: Self)
        ensures
            c.setup_version == self.setup_version,
            c.supported_versions@ == self.supported_versions@,
            c.ignore_max_request_quota == self.ignore_max_request_quota,
    {
        let mut supported_versions: Vec<Version> = Vec::new();
        let mut i: usize = 0;
        while i < self.supported_versions.len()
            invariant
                i <= self.supported_versions@.len(),
                supported_versions@ == self.supported_versions@.take(i as int),
            decreases self.supported_versions@.len() - i,
        {
            supported_versions.push(self.supported_versions[i]);
            assert(supported_versions@ =~= self.supported_versions@.take(i + 1));
            i += 1;
        }
        assert(supported_versions@ =~= self.supported_versions@);
        Self {
            setup_version: self.setup_version,
            supported_versions,
            ignore_max_request_quota: self.ignore_max_request_quota,
        }
    }
}

} // verus!
