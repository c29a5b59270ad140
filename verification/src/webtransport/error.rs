use vstd::prelude::*;

verus! {

pub type Result<T> = std::result::Result<T, Error>;

#[derive(Debug, Clone, Copy, PartialEq, Eq, Structural)]
pub enum Error {
    /// Nothing can be read or written right now.
    Done,
    /// The stream has not yet said which session it belongs to.
    MissingSessionID,
    /// There is no state for the stream, not yet or no more.
    NoStreamState,
    /// The transport takes no new stream, or not all the bytes at once.
    InsufficientCapacity,
    /// The stream has ended and all its bytes have been read.
    Fin,
}

} // verus!
