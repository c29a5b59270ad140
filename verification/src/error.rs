use crate::webtransport;
use crate::wire;
use vstd::prelude::*;
use vstd::std_specs::convert::FromSpecImpl;

verus! {

#[verifier::external_type_specification]
#[verifier::external_body]
pub struct ExIoError(std::io::Error);

pub type Result<T> = std::result::Result<T, Error>;

/// How an operation of a session can end other than well.
#[derive(Debug)]
pub enum Error {
    /// The peer has broken a rule of the protocol.
    ProtocolViolation(String),
    /// A buffer ends before the value does.
    Octets(octets::BufferTooShortError),
    PartialControlMessage,
    /// A reason phrase is not UTF-8.
    FromUtf8Error(std::string::FromUtf8Error),
    Unimplemented,
    /// The host failed to read or write.
    IO(std::io::Error),
    /// The WebTransport connection has refused.
    WT(webtransport::Error),
    /// Nothing to read, or no room to write, right now.
    Done,
    /// A stream has ended.
    Fin,
    /// The transport takes no new stream right now.
    InsufficientCapacity,
    /// An object is longer than its header can say, or its header longer
    /// than the buffer that reads it.
    ObjectToLong,
    /// A new object was begun before the payload of the last was complete.
    UnfinishedPayload,
    /// The peer has not allowed another request.
    RequestBlocked,
    /// A value could not be read or written.
    Wire(wire::Error),
}

impl From<wire::Error> for Error {
    fn from(err: wire::Error) -> (r: Error) {
        Error::Wire(err)
    }
}

impl FromSpecImpl<wire::Error> for Error {
    open spec fn obeys_from_spec() -> bool {
        true
    }

    open spec fn from_spec(err: wire::Error) -> Error {
        Error::Wire(err)
    }
}

impl From<webtransport::Error> for Error {
    fn from(err: webtransport::Error) -> (r: Error) {
        Error::WT(err)
    }
}

impl FromSpecImpl<webtransport::Error> for Error {
    open spec fn obeys_from_spec() -> bool {
        true
    }

    open spec fn from_spec(err: webtransport::Error) -> Error {
        Error::WT(err)
    }
}

impl From<octets::BufferTooShortError> for Error {
    fn from(err: octets::BufferTooShortError) -> (r: Error) {
        Error::Octets(err)
    }
}

impl FromSpecImpl<octets::BufferTooShortError> for Error {
    open spec fn obeys_from_spec() -> bool {
        true
    }

    open spec fn from_spec(err: octets::BufferTooShortError) -> Error {
        Error::Octets(err)
    }
}

impl From<std::string::FromUtf8Error> for Error {
    fn from(err: std::string::FromUtf8Error) -> (r: Error) {
        Error::FromUtf8Error(err)
    }
}

impl FromSpecImpl<std::string::FromUtf8Error> for Error {
    open spec fn obeys_from_spec() -> bool {
        true
    }

    open spec fn from_spec(err: std::string::FromUtf8Error) -> Error {
        Error::FromUtf8Error(err)
    }
}

impl From<std::io::Error> for Error {
    fn from(err: std::io::Error) -> (r: Error) {
        Error::IO(err)
    }
}

impl FromSpecImpl<std::io::Error> for Error {
    open spec fn obeys_from_spec() -> bool {
        true
    }

    open spec fn from_spec(err: std::io::Error) -> Error {
        Error::IO(err)
    }
}

} // verus!
