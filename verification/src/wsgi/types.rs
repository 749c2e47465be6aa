//! Events exchanged between the WSGI application threads and the filter.
use vstd::prelude::*;

verus! {

/// A request from the WSGI input stream to read the request body.
///
/// A size of 0 is answered by the input stream itself, so it never reaches
/// the filter.
#[derive(Clone, Copy, PartialEq, Eq, Structural, Debug)]
pub enum RequestReadEvent {
    /// No read is pending.
    Wait,
    /// A raw read of up to the given number of bytes; a size of zero or less
    /// reads until the end of the body.
    Raw(isize),
    /// A read of one line of up to the given number of bytes; a size of zero or
    /// less reads until the end of the line or of the body.
    Line(isize),
}

/// A chunk of request body answered to a read. `closed` marks the last chunk.
pub struct RequestBody {
    /// The bytes read.
    pub body: Vec<u8>,
    /// Whether the body is finished, so this is the last chunk.
    pub closed: bool,
}

} // verus!
