//! The identifier of a QUIC stream. Its two lowest bits say who opened the
//! stream and whether it carries bytes both ways.

use vstd::prelude::*;
use vstd::std_specs::convert::FromSpecImpl;

verus! {

#[derive(Hash, Eq, PartialEq, Debug, Clone, Copy, Ord, PartialOrd, Structural)]
pub struct StreamID(pub u64);

impl StreamID {
    /// The stream carries bytes both ways.
    pub open spec fn bidi(self) -> bool {
        self.0 & 0x2 == 0
    }

    /// The stream was opened by this endpoint, which is a server where
    /// `is_server`.
    pub open spec fn local(self, is_server: bool) -> bool {
        self.0 & 0x1 == if is_server {
            1u64
        } else {
            0u64
        }
    }

    pub fn is_bidi(&self) -> (r: bool)
        ensures
            r == self.bidi(),
    {
        (self.0 & 0x2) == 0
    }

    pub fn is_local(&self, is_server: bool) -> (r: bool)
        ensures
            r == self.local(is_server),
    {
        let side: u64 = if is_server {
            1
        } else {
            0
        };
        (self.0 & 0x1) == side
    }

    pub fn into_u64(self) -> (r: u64)
        ensures
            r == self.0,
    {
        self.0
    }

    /// The identifier as decimal digits.
    pub fn to_string(&self) -> (r: String)
        ensures
            r@ == decimal(self.0 as nat),
    {
        number_to_string(self.0)
    }
}

/// The character of the digit `d`, for `d` below 10.
pub open spec fn digit(d: nat) -> char {
    (48 + d) as u8 as char
}

/// The decimal digits of `n`, the most significant first, without leading
/// zeros.
pub open spec fn decimal(n: nat) -> Seq<char>
    decreases n,
{
    if n < 10 {
        seq![digit(n)]
    } else {
        decimal(n / 10).push(digit(n % 10))
    }
}

/// `u64::to_string`: the number in decimal, as `Display` writes an
/// integer: its digits, the most significant first, without sign or
/// leading zeros.
#[verifier::external_body]
fn number_to_string(v: u64) -> (s: String)
    ensures
        s@ == decimal(v as nat),
{
    v.to_string()
}

impl From<u64> for StreamID {
    fn from(id: u64) -> (r: StreamID) {
        StreamID(id)
    }
}

impl FromSpecImpl<u64> for StreamID {
    open spec fn obeys_from_spec() -> bool {
        true
    }

    open spec fn from_spec(id: u64) -> StreamID {
        StreamID(id)
    }
}

impl From<StreamID> for u64 {
    fn from(id: StreamID) -> (r: u64) {
        id.0
    }
}

impl FromSpecImpl<StreamID> for u64 {
    open spec fn obeys_from_spec() -> bool {
        true
    }

    open spec fn from_spec(id: StreamID) -> u64 {
        id.0
    }
}

} // verus!
