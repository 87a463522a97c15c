//! What the sensor sends back, and the sizes of a pixel-frame packet.

use crate::command::PACKET_HEADER_SIZE;
use crate::error::{Error, ResponseKind};
use crate::flags::BaudRate;
use crate::version_details::{VersionDetails, VersionDetailsView};
use vstd::prelude::*;

verus! {

/// Amount of real pixels in a single frame.
pub const FRAME_PIXEL_COUNT: usize = 3694;

/// Each reading may be prefixed and postfixed with "ghost" pixels, which
/// are dropped before a frame is handed out.
pub const FRAME_PIXEL_PREFIX: usize = 0;

pub const FRAME_PIXEL_POSTFIX: usize = 0;

/// Amount of pixels in a single package.
pub const FRAME_TOTAL_COUNT: usize = FRAME_PIXEL_PREFIX + FRAME_PIXEL_COUNT + FRAME_PIXEL_POSTFIX;

/// Bytes of sample data in a pixel-frame packet: the scan size.
pub const FRAME_DATA_SIZE: usize = FRAME_TOTAL_COUNT + FRAME_TOTAL_COUNT;

/// Bytes of the checksum that closes a pixel-frame packet.
pub const FRAME_CRC_SIZE: usize = 2;

/// Bytes of a whole pixel-frame packet, the largest response there is.
pub const MAX_PACKET_SIZE: usize = PACKET_HEADER_SIZE + FRAME_DATA_SIZE + FRAME_CRC_SIZE;

/// CCD captured data.
pub type Frame = [u16; FRAME_PIXEL_COUNT];

/// Package that can be received from the sensor.
#[derive(PartialEq, Eq, Debug, Clone)]
pub enum Response {
    SingleReading(Frame),
    ExposureTime(u16),
    AverageTime(u8),
    SerialBaudRate(BaudRate),
    VersionInfo(VersionDetails),
}

/// A response as a mathematical value.
pub enum ResponseView {
    SingleReading(Seq<u16>),
    ExposureTime(u16),
    AverageTime(u8),
    SerialBaudRate(BaudRate),
    VersionInfo(VersionDetailsView),
}

impl ResponseView {
    pub open spec fn kind(self) -> ResponseKind {
        match self {
            ResponseView::SingleReading(_) => ResponseKind::SingleReading,
            ResponseView::ExposureTime(_) => ResponseKind::ExposureTime,
            ResponseView::AverageTime(_) => ResponseKind::AverageTime,
            ResponseView::SerialBaudRate(_) => ResponseKind::SerialBaudRate,
            ResponseView::VersionInfo(_) => ResponseKind::VersionInfo,
        }
    }
}

impl View for Response {
    type V = ResponseView;

    open spec fn view(&self) -> ResponseView {
        match self {
            Response::SingleReading(f) => ResponseView::SingleReading(f@),
            Response::ExposureTime(t) => ResponseView::ExposureTime(*t),
            Response::AverageTime(t) => ResponseView::AverageTime(*t),
            Response::SerialBaudRate(b) => ResponseView::SerialBaudRate(*b),
            Response::VersionInfo(d) => ResponseView::VersionInfo(d@),
        }
    }
}

/// What a wait for a response came to, with the response as a
/// mathematical value.
pub open spec fn result_view(r: Result<Response, Error>) -> Result<ResponseView, Error> {
    match r {
        Ok(response) => Ok(response@),
        Err(e) => Err(e),
    }
}

impl Response {
    /// Which of the five responses this is.
    pub fn kind(&self) -> (k: ResponseKind)
        ensures
            k == self@.kind(),
    {
        match self {
            Response::SingleReading(_) => ResponseKind::SingleReading,
            Response::ExposureTime(_) => ResponseKind::ExposureTime,
            Response::AverageTime(_) => ResponseKind::AverageTime,
            Response::SerialBaudRate(_) => ResponseKind::SerialBaudRate,
            Response::VersionInfo(_) => ResponseKind::VersionInfo,
        }
    }

    /// The frame of a `SingleReading`; any other response is reported as
    /// unexpected, with its kind.
    pub fn into_frame(self) -> (r: Result<Frame, Error>)
        ensures
            match self {
                Response::SingleReading(f) => r == Ok::<Frame, Error>(f),
                _ => r matches Err(Error::UnexpectedResponse(k)) && k == self@.kind(),
            },
    {
        match self {
            Response::SingleReading(f) => Ok(f),
            other => Err(Error::UnexpectedResponse(other.kind())),
        }
    }

    /// The value of an `ExposureTime`; any other response is reported as
    /// unexpected, with its kind.
    pub fn into_exposure_time(self) -> (r: Result<u16, Error>)
        ensures
            match self {
                Response::ExposureTime(t) => r == Ok::<u16, Error>(t),
                _ => r matches Err(Error::UnexpectedResponse(k)) && k == self@.kind(),
            },
    {
        match self {
            Response::ExposureTime(t) => Ok(t),
            other => Err(Error::UnexpectedResponse(other.kind())),
        }
    }

    /// The value of an `AverageTime`; any other response is reported as
    /// unexpected, with its kind.
    pub fn into_average_time(self) -> (r: Result<u8, Error>)
        ensures
            match self {
                Response::AverageTime(t) => r == Ok::<u8, Error>(t),
                _ => r matches Err(Error::UnexpectedResponse(k)) && k == self@.kind(),
            },
    {
        match self {
            Response::AverageTime(t) => Ok(t),
            other => Err(Error::UnexpectedResponse(other.kind())),
        }
    }

    /// The rate of a `SerialBaudRate`; any other response is reported as
    /// unexpected, with its kind.
    pub fn into_baud_rate(self) -> (r: Result<BaudRate, Error>)
        ensures
            match self {
                Response::SerialBaudRate(b) => r == Ok::<BaudRate, Error>(b),
                _ => r matches Err(Error::UnexpectedResponse(k)) && k == self@.kind(),
            },
    {
        match self {
            Response::SerialBaudRate(b) => Ok(b),
            other => Err(Error::UnexpectedResponse(other.kind())),
        }
    }

    /// The record of a `VersionInfo`; any other response is reported as
    /// unexpected, with its kind.
    pub fn into_version(self) -> (r: Result<VersionDetails, Error>)
        ensures
            match self {
                Response::VersionInfo(d) => r == Ok::<VersionDetails, Error>(d),
                _ => r matches Err(Error::UnexpectedResponse(k)) && k == self@.kind(),
            },
    {
        match self {
            Response::VersionInfo(d) => Ok(d),
            other => Err(Error::UnexpectedResponse(other.kind())),
        }
    }
}

} // verus!
