//! The byte transport that a session talks through.

use crate::ccd::CCD;
use crate::error::Result;
use vstd::prelude::*;

verus! {

/// What a session needs of a transport: a write that blocks until all
/// bytes are out, and a read that blocks until some bytes are in.
///
/// Nothing is promised of either result. A session checks the count that
/// `read` reports against the space it offered.
pub trait IoAdapter: Sized {
    /// Writes all of `buf`, or fails.
    fn write_all(&mut self, buf: &[u8]) -> Result<()>;

    /// Reads into the head of `buf` and reports how many bytes came. No
    /// byte means that the stream is closed or idle.
    fn read(&mut self, buf: &mut [u8]) -> Result<usize>;
}

/// Every transport can start a session.
pub trait OpenCcd: IoAdapter {
    /// Starts a session over this transport, as `CCD::new` does.
    fn open_ccd(self) -> (ccd: CCD<Self>)
        ensures
            ccd.wf(),
            ccd@.pending == Seq::<u8>::empty(),
            ccd@.issued == Seq::<crate::link::Issued>::empty(),
            ccd@.delivered == Seq::<u8>::empty(),
            ccd@.received == Seq::<crate::response::ResponseView>::empty(),
            !ccd@.aligned,
            !ccd@.crc_enforced,
    ;
}

impl<IO: IoAdapter> OpenCcd for IO {
    fn open_ccd(self) -> (ccd: CCD<Self>) {
        CCD::new(self)
    }
}

} // verus!
