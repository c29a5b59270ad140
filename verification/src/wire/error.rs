use vstd::prelude::*;

verus! {

#[verifier::external_type_specification]
#[verifier::external_body]
pub struct ExBufferTooShortError(octets::BufferTooShortError);

#[verifier::external_type_specification]
#[verifier::external_body]
pub struct ExFromUtf8Error(std::string::FromUtf8Error);

pub type Result<T> = std::result::Result<T, Error>;

/// Why a value could not be read or written.
#[derive(Debug)]
pub enum Error {
    /// The buffer ends before the value does.
    Octets(octets::BufferTooShortError),
    /// A reason phrase is not UTF-8.
    FromUtf8Error(std::string::FromUtf8Error),
    /// The bytes, or the value to write, break a rule of the protocol.
    ProtocolViolation(String),
}

/// The kind of an [`Error`], which is all that contracts say of one.
pub enum Fault {
    TooShort,
    Utf8,
    Violation,
}

impl Error {
    pub open spec fn fault(&self) -> Fault {
        match self {
            Error::Octets(_) => Fault::TooShort,
            Error::FromUtf8Error(_) => Fault::Utf8,
            Error::ProtocolViolation(_) => Fault::Violation,
        }
    }

    /// A protocol violation with the given reason.
    pub fn violation(reason: &str) -> (e: Error)
        ensures
            e.fault() == Fault::Violation,
            e matches Error::ProtocolViolation(s) && s@ == reason@,
    {
        Error::ProtocolViolation(reason.to_owned())
    }

    pub fn is_too_short(&self) -> (r: bool)
        ensures
            r == (self.fault() == Fault::TooShort),
    {
        match self {
            Error::Octets(_) => true,
            _ => false,
        }
    }
}

/// What reading a value at an offset yields: the value and the offset behind
/// it, or the kind of the error.
pub type Parsed<T> = std::result::Result<(T, int), Fault>;

} // verus!
