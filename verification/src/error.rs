//! What can go wrong between a command and its response.

use vstd::prelude::*;

verus! {

/// The error a transport reports. Nothing is known inside it: it is
/// carried from the transport to the caller unchanged.
#[verifier::external_type_specification]
#[verifier::external_body]
pub struct ExIoError(std::io::Error);

/// Which of the five responses a value is.
#[derive(PartialEq, Eq, Debug, Clone, Copy, Structural)]
pub enum ResponseKind {
    SingleReading,
    ExposureTime,
    AverageTime,
    SerialBaudRate,
    VersionInfo,
}

#[derive(Debug)]
pub enum Error {
    /// A baud rate outside 115200, 384000 and 921600, or a wire code
    /// outside 1, 2 and 3.
    InvalidBaudRate,
    /// The received bytes are no response, even after a resync.
    InvalidData,
    /// The stream ended inside a response.
    UnexpectedEop,
    /// The named field of a version report does not fit its bounded
    /// string.
    VersionDetailTooLong(&'static str),
    /// A well-formed response of another kind than the one awaited.
    UnexpectedResponse(ResponseKind),
    /// The transport failed.
    IoError(std::io::Error),
}

pub type Result<T> = core::result::Result<T, Error>;

} // verus!
