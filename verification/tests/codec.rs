use bytes::BytesMut;
use ccd_lcamv06::codec::{BufferFull, CCDCodec, Decoder, DecoderError, Encoder};
use ccd_lcamv06::error::Error;
use ccd_lcamv06::parser::pair_u8_to_u16;
use ccd_lcamv06::{Command, Response, VersionDetails, FRAME_PIXEL_COUNT};

const HEAD_SIZE: usize = 5;
const PIXEL_COUNT: usize = FRAME_PIXEL_COUNT;

#[test]
fn expected_encoding() {
    let mut codec = CCDCodec::new();
    let mut dst = BytesMut::with_capacity(0);

    codec.encode(Command::SetIntegrationTime(10), &mut dst).unwrap();

    assert_eq!(&dst[..], &[0x81, 0x03, 0x00, 0x0a, 0xff]);
}

#[test]
fn expected_decoding() {
    let mut codec = CCDCodec::new();
    let mut src = BytesMut::with_capacity(0);
    // Encoded Response::VersionInfo
    src.extend_from_slice("HdInfo:LCAM_V8.4.2,S11639,V4.2,202111161548".as_bytes());

    let res = codec.decode(&mut src).unwrap().unwrap();
    assert_eq!(
        res,
        Response::VersionInfo(
            VersionDetails::try_new("LCAM_V8.4.2", "S11639", "V4.2", "202111161548").unwrap()
        )
    );

    // Encoded Response::SingleReading
    let [len_upper, len_lower] = ((PIXEL_COUNT * 2) as u16).to_be_bytes();
    // Head
    src.extend_from_slice(&[0x81, 0x01, len_upper, len_lower, 0x00]);
    // Full data block, check for CRC overflow behaviour
    let data = vec![16u8; PIXEL_COUNT * 2];
    // Calculate correct CRC
    let crc = data.iter().fold(0u16, |acc, el| acc.wrapping_add((*el).into()));
    src.extend_from_slice(&data);
    src.extend_from_slice(&crc.to_be_bytes());

    let res = codec.decode(&mut src).unwrap().unwrap();
    assert_eq!(res, Response::SingleReading([pair_u8_to_u16(16u8, 16u8); FRAME_PIXEL_COUNT]));
    assert!(src.is_empty());
}

#[test]
fn encoding_appends_behind_what_is_there() {
    let mut codec = CCDCodec::new();
    let mut dst = BytesMut::from(&[0xAAu8][..]);
    assert_eq!(codec.encode(Command::PauseRead, &mut dst), Ok::<(), BufferFull>(()));
    assert_eq!(&dst[..], &[0xAA, 0x81, 0x06, 0x00, 0x00, 0xff]);
}

#[test]
fn decoding_waits_for_the_rest_of_a_response() {
    let mut codec = CCDCodec::new();
    let mut src = BytesMut::from(&[0x81u8, 0x0E, 0xAB][..]);
    assert_eq!(codec.decode(&mut src).unwrap(), None);
    assert_eq!(&src[..], &[0x81, 0x0E, 0xAB]);
    src.extend_from_slice(&[0x00, 0xFF, 0x81]);
    assert_eq!(codec.decode(&mut src).unwrap(), Some(Response::AverageTime(0xAB)));
    // What follows the response stays.
    assert_eq!(&src[..], &[0x81]);
}

#[test]
fn decoding_drops_garbage_in_front_of_a_response() {
    let mut codec = CCDCodec::new();
    let mut src = BytesMut::from(&[0xDEu8, 0xAD, 0xBE, 0xEF, 0x81, 0x02, 0xAB, 0xCD, 0xFF][..]);
    assert_eq!(codec.decode(&mut src).unwrap(), Some(Response::ExposureTime(0xABCD)));
    assert!(src.is_empty());
}

#[test]
fn decoding_keeps_garbage_that_may_still_become_a_tag() {
    let mut codec = CCDCodec::new();
    let mut src = BytesMut::from(&b"xxHdIn"[..]);
    assert_eq!(codec.decode(&mut src).unwrap(), None);
    assert_eq!(&src[..], b"xxHdIn");
}

#[test]
fn decoding_drops_garbage_and_waits() {
    let mut codec = CCDCodec::new();
    let mut src = BytesMut::from(&[0x00u8, 0x01, 0x81, 0x16][..]);
    assert_eq!(codec.decode(&mut src).unwrap(), None);
    assert_eq!(&src[..], &[0x81, 0x16]);
}

#[test]
fn decoding_refuses_what_begins_no_response() {
    let mut codec = CCDCodec::new();
    let mut src = BytesMut::from(&[0x81u8, 0x16, 0x09, 0x00, 0xFF][..]);
    assert!(matches!(codec.decode(&mut src), Err(Error::InvalidData)));
    assert_eq!(src.len(), HEAD_SIZE);
}

#[test]
fn decoding_a_wrong_checksum() {
    let mut packet = vec![0x81u8, 0x01, 0x00, 0x00, 0x00];
    packet.extend_from_slice(&vec![1u8; PIXEL_COUNT * 2]);
    packet.extend_from_slice(&[0x00, 0x00]);

    let mut lenient = CCDCodec::new();
    let mut src = BytesMut::from(&packet[..]);
    assert_eq!(
        lenient.decode(&mut src).unwrap(),
        Some(Response::SingleReading([0x0101; FRAME_PIXEL_COUNT]))
    );

    let mut strict = CCDCodec { enforce_crc: true };
    let mut src = BytesMut::from(&packet[..]);
    assert!(matches!(strict.decode(&mut src), Err(Error::InvalidData)));
    assert!(src.is_empty());
}

#[test]
fn end_of_input() {
    let mut codec = CCDCodec::new();
    let mut src = BytesMut::new();
    assert!(matches!(codec.decode_eof(&mut src), Ok(None)));

    let mut src = BytesMut::from(&[0x81u8, 0x0E][..]);
    assert!(matches!(codec.decode_eof(&mut src), Err(DecoderError::UnexpectedEof)));

    let mut src = BytesMut::from(&[0x81u8, 0x0E, 0x01, 0x00, 0xFF][..]);
    assert!(matches!(codec.decode_eof(&mut src), Ok(Some(Response::AverageTime(1)))));

    let mut src = BytesMut::from(&[0x81u8, 0x0F, 0x01, 0x00, 0xFF][..]);
    assert!(matches!(
        codec.decode_eof(&mut src),
        Err(DecoderError::Other(Error::InvalidData))
    ));
}
