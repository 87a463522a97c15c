//! A codec over `bytes::BytesMut`: commands are appended to a write
//! buffer, and responses are taken off the front of a read buffer.

use crate::command::{Command, PACKET_HEADER_SIZE};
use crate::error::Error;
use crate::response::{Response, ResponseView};
use crate::stream::{poll_bytes, poll_spec, Poll, PollView};
use bytes::BytesMut;
use vstd::prelude::*;

verus! {

/// The byte buffer of the `bytes` crate. Verus sees nothing inside it;
/// what it holds is named by `bytes_mut_contents`.
#[verifier::external_type_specification]
#[verifier::external_body]
pub struct ExBytesMut(BytesMut);

/// The bytes that a `BytesMut` holds, first to last.
pub uninterp spec fn bytes_mut_contents(buf: BytesMut) -> Seq<u8>;

/// `BytesMut::as_ref`: the bytes of the buffer as a slice.
#[verifier::external_body]
fn bytes_mut_as_slice(buf: &BytesMut) -> (bytes: &[u8])
    ensures
        bytes@ == bytes_mut_contents(*buf),
{
    buf.as_ref()
}

/// `Buf::advance` of `BytesMut`: drops the first `count` bytes. It
/// panics on a count above the length, which `requires` leaves out.
#[verifier::external_body]
fn bytes_mut_advance(buf: &mut BytesMut, count: usize)
    requires
        count <= bytes_mut_contents(*old(buf)).len(),
    ensures
        bytes_mut_contents(*final(buf)) == bytes_mut_contents(*old(buf)).subrange(
            count as int,
            bytes_mut_contents(*old(buf)).len() as int,
        ),
{
    bytes::Buf::advance(buf, count)
}

/// `BytesMut::extend_from_slice`: appends `extend`, growing the buffer
/// where it must. It panics where the buffer cannot grow to the new
/// length; `requires` keeps the new length within `isize::MAX`, the
/// most that any allocation holds.
#[verifier::external_body]
fn bytes_mut_extend_from_slice(buf: &mut BytesMut, extend: &[u8])
    requires
        bytes_mut_contents(*old(buf)).len() + extend@.len() <= isize::MAX,
    ensures
        bytes_mut_contents(*final(buf)) == bytes_mut_contents(*old(buf)) + extend@,
{
    buf.extend_from_slice(extend)
}

/// Why a decoder gave no item at the end of its input.
#[derive(PartialEq, Eq, Clone, Copy, Debug)]
pub enum DecoderError<E> {
    /// The input ended inside an item.
    UnexpectedEof,
    /// The decoder itself failed.
    Other(E),
}

/// Why a framed transport failed.
#[derive(Debug)]
pub enum FramedError<E> {
    /// The transport failed.
    IO(std::io::Error),
    /// The codec failed.
    Other(E),
}

/// What a decoder owes at the end of its input, from what its last
/// `decode` gave and from whether bytes are left: its failure, its item,
/// nothing where no bytes are left, and `UnexpectedEof` where some are.
pub fn eof_outcome<T, E>(decoded: Result<Option<T>, E>, buffer_empty: bool) -> (r: Result<
    Option<T>,
    DecoderError<E>,
>)
    ensures
        r == match decoded {
            Err(e) => Err::<Option<T>, DecoderError<E>>(DecoderError::Other(e)),
            Ok(Some(item)) => Ok(Some(item)),
            Ok(None) => if buffer_empty {
                Ok(None)
            } else {
                Err(DecoderError::UnexpectedEof)
            },
        },
{
    match decoded {
        Err(e) => Err(DecoderError::Other(e)),
        Ok(Some(item)) => Ok(Some(item)),
        Ok(None) => {
            if buffer_empty {
                Ok(None)
            } else {
                Err(DecoderError::UnexpectedEof)
            }
        },
    }
}

/// Takes items off the front of a buffer of received bytes.
pub trait Decoder {
    type Error;

    type Item;

    /// Takes one item off the front of `buf`, or gives `None` where `buf`
    /// holds no whole item yet.
    fn decode(&mut self, buf: &mut BytesMut) -> Result<Option<Self::Item>, Self::Error>;

    /// Decodes once more when no more bytes will come: bytes that are
    /// left behind without an item are an error.
    fn decode_eof(&mut self, buf: &mut BytesMut) -> (r: Result<
        Option<Self::Item>,
        DecoderError<Self::Error>,
    >)
        ensures
            r matches Ok(None) ==> bytes_mut_contents(*final(buf)).len() == 0,
            r matches Err(DecoderError::UnexpectedEof) ==> bytes_mut_contents(*final(buf)).len()
                > 0,
    {
        let decoded = self.decode(buf);
        let buffer_empty = bytes_mut_as_slice(buf).len() == 0;
        eof_outcome(decoded, buffer_empty)
    }
}

/// Appends items in their wire form to a buffer of bytes to send.
pub trait Encoder {
    type Error;

    type Item;

    /// Appends the wire form of `item` to `dst`.
    fn encode(&mut self, item: Self::Item, dst: &mut BytesMut) -> Result<(), Self::Error>;
}

/// The buffer cannot take the bytes of one more command.
#[derive(PartialEq, Eq, Clone, Copy, Debug)]
pub struct BufferFull;

/// The codec of the sensor: it encodes commands and decodes responses.
#[derive(PartialEq, Eq, Clone, Copy, Debug)]
pub struct CCDCodec {
    /// Whether a frame with a wrong checksum is refused.
    pub enforce_crc: bool,
}

/// What `decode` makes of a buffer that holds `bytes`: the bytes it
/// leaves, and what it returns.
pub open spec fn decode_spec(bytes: Seq<u8>, enforce_crc: bool) -> (
    Seq<u8>,
    Result<Option<ResponseView>, Error>,
) {
    match poll_spec(bytes, false) {
        PollView::Ready { response, checksum_ok, rest, .. } => if checksum_ok || !enforce_crc {
            (rest, Ok(Some(response)))
        } else {
            (rest, Err(Error::InvalidData))
        },
        PollView::Pending { pending, .. } => (pending, Ok(None)),
        PollView::Failed { pending } => (pending, Err(Error::InvalidData)),
    }
}

impl CCDCodec {
    /// A codec that hands out frames whatever their checksum.
    pub fn new() -> (codec: CCDCodec)
        ensures
            !codec.enforce_crc,
    {
        CCDCodec { enforce_crc: false }
    }
}

impl Encoder for CCDCodec {
    type Error = BufferFull;

    type Item = Command;

    /// Appends the five bytes of `item` to `dst`. Fails, and leaves `dst`
    /// as it is, only where five more bytes would take its length above
    /// `isize::MAX`.
    fn encode(&mut self, item: Command, dst: &mut BytesMut) -> (r: Result<(), BufferFull>)
        ensures
            r is Ok <==> bytes_mut_contents(*old(dst)).len() + PACKET_HEADER_SIZE <= isize::MAX,
            r is Ok ==> bytes_mut_contents(*final(dst)) == bytes_mut_contents(*old(dst))
                + item.encode_spec(),
            r is Err ==> bytes_mut_contents(*final(dst)) == bytes_mut_contents(*old(dst)),
            *final(self) == *old(self),
    {
        let used = bytes_mut_as_slice(dst).len();
        if used > isize::MAX as usize - PACKET_HEADER_SIZE {
            return Err(BufferFull);
        }
        let bytes = item.encode();
        bytes_mut_extend_from_slice(dst, bytes.as_slice());
        Ok(())
    }
}

impl Decoder for CCDCodec {
    type Error = Error;

    type Item = Response;

    /// Takes one response off the front of `buf`, as `decode_spec` says.
    ///
    /// A complete response leaves the buffer and is handed out. A frame
    /// with a wrong checksum leaves it too, and is refused as
    /// `InvalidData` where the checksum is enforced. A beginning of a
    /// response stays and gives `None`. Bytes that begin no response are
    /// resynced: what stands in front of the first place where a
    /// response can begin is dropped, and what follows is parsed once
    /// more; where that fails as well, the result is `InvalidData`.
    fn decode(&mut self, buf: &mut BytesMut) -> (r: Result<Option<Response>, Error>)
        ensures
            bytes_mut_contents(*final(buf)) == decode_spec(
                bytes_mut_contents(*old(buf)),
                old(self).enforce_crc,
            ).0,
            match decode_spec(bytes_mut_contents(*old(buf)), old(self).enforce_crc).1 {
                Ok(Some(response)) => r matches Ok(Some(found)) && found@ == response,
                Ok(None) => r matches Ok(None),
                Err(_) => r matches Err(Error::InvalidData),
            },
            *final(self) == *old(self),
    {
        let step = poll_bytes(bytes_mut_as_slice(buf), false);
        bytes_mut_advance(buf, step.consumed);
        match step.outcome {
            Poll::Ready { response, checksum_ok } => {
                if checksum_ok || !self.enforce_crc {
                    Ok(Some(response))
                } else {
                    Err(Error::InvalidData)
                }
            },
            Poll::Pending => Ok(None),
            Poll::Failed => Err(Error::InvalidData),
        }
    }
}

} // verus!
