use ccd_lcamv06::error::{Error, ResponseKind, Result};
use ccd_lcamv06::io_adapter::OpenCcd;
use ccd_lcamv06::link::Link;
use ccd_lcamv06::Command;
use ccd_lcamv06::{BaudRate, Frame, IoAdapter, TriggerMode, VersionDetails, CCD, FRAME_PIXEL_COUNT};
use std::collections::VecDeque;

/// A transport that plays back chunks of bytes, one chunk per read, and
/// keeps what was written to it.
struct Script {
    chunks: VecDeque<Vec<u8>>,
    written: Vec<u8>,
    /// Writes that succeed before every later one fails.
    writes_left: usize,
}

impl Script {
    fn new(chunks: &[&[u8]]) -> Script {
        Script {
            chunks: chunks.iter().map(|c| c.to_vec()).collect(),
            written: Vec::new(),
            writes_left: usize::MAX,
        }
    }
}

impl IoAdapter for Script {
    fn write_all(&mut self, buf: &[u8]) -> Result<()> {
        if self.writes_left == 0 {
            return Err(Error::IoError(std::io::Error::new(
                std::io::ErrorKind::BrokenPipe,
                "closed",
            )));
        }
        self.writes_left -= 1;
        self.written.extend_from_slice(buf);
        Ok(())
    }

    fn read(&mut self, buf: &mut [u8]) -> Result<usize> {
        let mut chunk = match self.chunks.pop_front() {
            Some(chunk) => chunk,
            None => return Ok(0),
        };
        let n = chunk.len().min(buf.len());
        buf[..n].copy_from_slice(&chunk[..n]);
        if n < chunk.len() {
            self.chunks.push_front(chunk.split_off(n));
        }
        Ok(n)
    }
}

/// A transport that borrows a script, so that the test can look at what
/// was written once the session is gone.
struct Shared<'a> {
    inner: &'a mut Script,
}

impl<'a> IoAdapter for Shared<'a> {
    fn write_all(&mut self, buf: &[u8]) -> Result<()> {
        self.inner.write_all(buf)
    }

    fn read(&mut self, buf: &mut [u8]) -> Result<usize> {
        self.inner.read(buf)
    }
}

fn frame_packet(sample: u16) -> Vec<u8> {
    let mut packet = vec![0x81, 0x01, 0x1C, 0xDC, 0x00];
    let mut crc: u16 = 0;
    for _ in 0..FRAME_PIXEL_COUNT {
        for b in sample.to_be_bytes() {
            packet.push(b);
            crc = crc.wrapping_add(b as u16);
        }
    }
    packet.extend_from_slice(&crc.to_be_bytes());
    packet
}

#[test]
fn baud_rate_is_read() {
    let mut ccd = CCD::new(Script::new(&[&[0x81, 0x16, 0x01, 0x00, 0xFF]]));
    assert_eq!(ccd.get_baudrate().unwrap(), BaudRate::Baud115200);
    assert_eq!(ccd.pending_len(), 0);
}

#[test]
fn exposure_time_is_read() {
    let mut ccd = Script::new(&[&[0x81, 0x02, 0xAB, 0xCD, 0xFF]]).open_ccd();
    assert_eq!(ccd.get_exp_time().unwrap(), 0xABCD);
}

#[test]
fn average_time_is_read() {
    let mut ccd = CCD::new(Script::new(&[&[0x81, 0x0E, 0xAB, 0x00, 0xFF]]));
    assert_eq!(ccd.get_avg_time().unwrap(), 0xAB);
}

#[test]
fn garbage_in_front_is_dropped_by_one_resync() {
    let mut ccd =
        CCD::new(Script::new(&[&[0xDE, 0xAD, 0xBE, 0xEF, 0x81, 0x0E, 0xAB, 0x00, 0xFF]]));
    assert_eq!(ccd.get_avg_time().unwrap(), 0xAB);
    assert_eq!(ccd.pending_len(), 0);
}

#[test]
fn garbage_in_a_read_of_its_own_is_dropped() {
    let mut ccd = CCD::new(Script::new(&[&[0xDE, 0xAD], &[0xBE, 0x81], &[0x0E, 0xAB, 0x00, 0xFF]]));
    assert_eq!(ccd.get_avg_time().unwrap(), 0xAB);
}

#[test]
fn version_is_read() {
    let mut ccd = CCD::new(Script::new(&[b"HdInfo:LCAM_V8.4.2,S11639,V4.2,202111161548"]));
    let version = ccd.get_version().unwrap();
    assert_eq!(
        version,
        VersionDetails::try_new("LCAM_V8.4.2", "S11639", "V4.2", "202111161548").unwrap()
    );
    assert_eq!(version.hardware_version(), "LCAM_V8.4.2");
    assert_eq!(version.sensor_type(), "S11639");
    assert_eq!(version.firmware_version(), "V4.2");
    assert_eq!(version.serial_number(), "202111161548");
}

#[test]
fn frame_is_read() {
    let packet = frame_packet(0xABCD);
    let mut ccd = CCD::new(Script::new(&[&packet]));
    let frame = ccd.get_frame().unwrap();
    assert_eq!(frame.len(), FRAME_PIXEL_COUNT);
    assert!(frame.iter().all(|sample| *sample == 0xABCD));
    assert_eq!(ccd.crc_mismatches(), 0);
}

#[test]
fn frame_is_read_across_many_reads() {
    let packet = frame_packet(0x0102);
    let chunks: Vec<&[u8]> = packet.chunks(1000).collect();
    let mut ccd = CCD::new(Script::new(&chunks));
    let frame = ccd.get_frame().unwrap();
    assert!(frame.iter().all(|sample| *sample == 0x0102));
}

#[test]
fn commands_are_written_in_wire_form() {
    let mut script = Script::new(&[]);
    {
        let mut ccd = CCD::new(Shared { inner: &mut script });
        ccd.set_avg_time(7).unwrap();
        ccd.set_exp_time(10).unwrap();
        ccd.set_trigger_mode(TriggerMode::SingleHard).unwrap();
        ccd.set_baudrate(BaudRate::Baud921600).unwrap();
    }
    assert_eq!(
        script.written,
        vec![
            0x81, 0x0C, 0x07, 0x00, 0xFF, 0x81, 0x03, 0x00, 0x0A, 0xFF, 0x81, 0x07, 0x02, 0x00,
            0xFF, 0x81, 0x13, 0x03, 0x00, 0xFF
        ]
    );
}

#[test]
fn another_kind_of_response_is_unexpected_and_consumed() {
    let mut ccd = CCD::new(Script::new(&[&[0x81, 0x02, 0xAB, 0xCD, 0xFF]]));
    match ccd.get_avg_time() {
        Err(Error::UnexpectedResponse(kind)) => assert_eq!(kind, ResponseKind::ExposureTime),
        other => panic!("{:?}", other),
    }
    assert_eq!(ccd.pending_len(), 0);
}

#[test]
fn bytes_that_begin_no_response_are_invalid_data() {
    // The prefix is there, the opcode is none.
    let mut ccd = CCD::new(Script::new(&[&[0x81, 0x55, 0x00, 0x00, 0xFF]]));
    assert!(matches!(ccd.get_avg_time(), Err(Error::InvalidData)));
    // Nothing was consumed.
    assert_eq!(ccd.pending_len(), 5);
}

#[test]
fn a_stream_that_ends_inside_a_response_is_unexpected_eop() {
    let mut ccd = CCD::new(Script::new(&[&[0x81, 0x0E, 0xAB]]));
    assert!(matches!(ccd.get_avg_time(), Err(Error::UnexpectedEop)));
    assert_eq!(ccd.pending_len(), 3);
}

#[test]
fn a_refused_command_is_an_io_error() {
    let mut script = Script::new(&[&[0x81, 0x0E, 0xAB, 0x00, 0xFF]]);
    script.writes_left = 0;
    let mut ccd = CCD::new(script);
    assert!(matches!(ccd.get_avg_time(), Err(Error::IoError(_))));
    // Nothing was read.
    assert_eq!(ccd.pending_len(), 0);
}

#[test]
fn a_wrong_checksum_is_counted_and_accepted() {
    let mut packet = frame_packet(0x0001);
    let last = packet.len() - 1;
    packet[last] ^= 0xFF;
    let mut ccd = CCD::new(Script::new(&[&packet]));
    assert!(!ccd.crc_enforced());
    let frame = ccd.get_frame().unwrap();
    assert!(frame.iter().all(|sample| *sample == 0x0001));
    assert_eq!(ccd.crc_mismatches(), 1);
}

#[test]
fn a_wrong_checksum_is_refused_where_enforced() {
    let mut packet = frame_packet(0x0001);
    let last = packet.len() - 1;
    packet[last] ^= 0xFF;
    let good = frame_packet(0x0002);
    let mut ccd = CCD::new(Script::new(&[&packet, &good]));
    ccd.set_crc_enforced(true);
    assert!(ccd.crc_enforced());
    assert!(matches!(ccd.get_frame(), Err(Error::InvalidData)));
    assert_eq!(ccd.crc_mismatches(), 1);
    // The bad frame is gone: the next one is read.
    let frame = ccd.get_frame().unwrap();
    assert!(frame.iter().all(|sample| *sample == 0x0002));
}

#[test]
fn frames_are_collected_between_continuous_read_and_pause() {
    let first = frame_packet(1);
    let second = frame_packet(2);
    let third = frame_packet(3);
    let mut script = Script::new(&[&first, &second, &third]);
    let mut frames: Vec<Frame> = Vec::new();
    {
        let mut ccd = CCD::new(Shared { inner: &mut script });
        ccd.get_frames(&mut frames, 3).unwrap();
    }
    assert_eq!(frames.len(), 3);
    assert!(frames[0].iter().all(|sample| *sample == 1));
    assert!(frames[1].iter().all(|sample| *sample == 2));
    assert!(frames[2].iter().all(|sample| *sample == 3));
    assert_eq!(script.written, vec![0x81, 0x02, 0x00, 0x00, 0xFF, 0x81, 0x06, 0x00, 0x00, 0xFF]);
}

#[test]
fn two_frames_in_one_read_are_both_collected() {
    let mut both = frame_packet(1);
    both.extend_from_slice(&frame_packet(2));
    let mut frames: Vec<Frame> = vec![[9; FRAME_PIXEL_COUNT]];
    let mut ccd = CCD::new(Script::new(&[&both[..100], &both[100..]]));
    ccd.get_frames(&mut frames, 2).unwrap();
    assert_eq!(frames.len(), 3);
    assert!(frames[0].iter().all(|sample| *sample == 9));
    assert!(frames[1].iter().all(|sample| *sample == 1));
    assert!(frames[2].iter().all(|sample| *sample == 2));
}

#[test]
fn a_failed_stream_is_still_paused_once() {
    let first = frame_packet(1);
    let mut script = Script::new(&[&first, &[0x81, 0x16, 0x01, 0x00, 0xFF]]);
    let mut frames: Vec<Frame> = Vec::new();
    {
        let mut ccd = CCD::new(Shared { inner: &mut script });
        match ccd.get_frames(&mut frames, 3) {
            Err(Error::UnexpectedResponse(kind)) => {
                assert_eq!(kind, ResponseKind::SerialBaudRate)
            }
            other => panic!("{:?}", other),
        }
    }
    assert_eq!(frames.len(), 1);
    assert_eq!(script.written, vec![0x81, 0x02, 0x00, 0x00, 0xFF, 0x81, 0x06, 0x00, 0x00, 0xFF]);
}

#[test]
fn a_refused_pause_is_reported_though_all_frames_came() {
    let first = frame_packet(1);
    let mut script = Script::new(&[&first]);
    script.writes_left = 1;
    let mut frames: Vec<Frame> = Vec::new();
    let mut ccd = CCD::new(script);
    assert!(matches!(ccd.get_frames(&mut frames, 1), Err(Error::IoError(_))));
    assert_eq!(frames.len(), 1);
}

#[test]
fn no_frames_asked_for_is_two_commands() {
    let mut script = Script::new(&[]);
    let mut frames: Vec<Frame> = Vec::new();
    {
        let mut ccd = CCD::new(Shared { inner: &mut script });
        ccd.get_frames(&mut frames, 0).unwrap();
    }
    assert!(frames.is_empty());
    assert_eq!(script.written, vec![0x81, 0x02, 0x00, 0x00, 0xFF, 0x81, 0x06, 0x00, 0x00, 0xFF]);
}

#[test]
fn a_full_buffer_ends_the_wait() {
    // A version report whose separators never end.
    let mut noise = b"HdInfo:A".to_vec();
    noise.resize(20_000, b',');
    let chunks: Vec<&[u8]> = noise.chunks(4096).collect();
    let mut ccd = CCD::new(Script::new(&chunks));
    assert!(matches!(ccd.get_version(), Err(Error::UnexpectedEop)));
    assert_eq!(ccd.pending_len(), 14790);
}

/// One frame as the sensor sends it: the samples lie close to a flat
/// line, with some noise.
fn noisy_frame_packet() -> Vec<u8> {
    let mut bytes = vec![0x81, 0x01, 0x1C, 0xDC, 0x00];
    let mut state: u32 = 1;
    let mut crc: u16 = 0;
    for _ in 0..FRAME_PIXEL_COUNT {
        state = state.wrapping_mul(1664525).wrapping_add(1013904223);
        let sample: u16 = 30000 + ((state >> 16) % 100) as u16;
        for b in sample.to_be_bytes() {
            bytes.push(b);
            crc = crc.wrapping_add(b as u16);
        }
    }
    bytes.extend_from_slice(&crc.to_be_bytes());
    bytes
}

#[test]
fn ccd_decode_single_package() {
    let package = noisy_frame_packet();
    let mut ccd = CCD::new(Script::new(&[&package]));

    // In ideal scenario input data should be a flat line and all values equal,
    // but this is a real world data and there is some noise.
    // Instead test if standard deviation is not too big
    let frame = ccd.get_frame().unwrap();
    // Filter out flaky inputs
    let frame_slice = &frame[10..frame.len() - 10];
    let size = frame_slice.len() as f32;
    let mean = frame_slice.iter().fold(0f32, |accum, x| accum + (*x as f32 / size));
    let deviation = (frame_slice
        .iter()
        .map(|val| {
            let diff = mean - *val as f32;
            diff * diff
        })
        .sum::<f32>()
        / size)
        .sqrt();
    assert!(deviation < 100 as f32);
}

#[test]
fn a_link_hands_results_back_as_they_come() {
    let mut script = Script::new(&[&[1, 2, 3], &[4]]);
    script.writes_left = 1;
    let mut link = Link::new(script);
    assert!(link.send(Command::GetVersion).is_ok());
    match link.send(Command::GetVersion) {
        Err(Error::IoError(e)) => assert_eq!(e.kind(), std::io::ErrorKind::BrokenPipe),
        other => panic!("{:?}", other),
    }
    let mut buf = [0u8; 8];
    assert!(matches!(link.read(&mut buf), Ok(3)));
    assert_eq!(&buf[..3], &[1, 2, 3]);
    assert!(matches!(link.read(&mut buf[..0]), Ok(0)));
    assert!(matches!(link.read(&mut buf), Ok(1)));
    assert!(matches!(link.read(&mut buf), Ok(0)));
}

#[test]
fn a_refused_write_is_handed_back_as_the_transport_gave_it() {
    let mut script = Script::new(&[&[0x81, 0x0E, 0xAB, 0x00, 0xFF]]);
    script.writes_left = 0;
    let mut ccd = CCD::new(script);
    for _ in 0..2 {
        match ccd.get_frame() {
            Err(Error::IoError(e)) => {
                assert_eq!(e.kind(), std::io::ErrorKind::BrokenPipe);
                assert_eq!(e.to_string(), "closed");
            }
            other => panic!("{:?}", other.map(|_| ())),
        }
    }
    match ccd.set_exp_time(1) {
        Err(Error::IoError(e)) => assert_eq!(e.kind(), std::io::ErrorKind::BrokenPipe),
        other => panic!("{:?}", other),
    }
    let mut frames: Vec<Frame> = Vec::new();
    assert!(matches!(ccd.get_frames(&mut frames, 2), Err(Error::IoError(_))));
    assert!(frames.is_empty());
    // Nothing was read in all that.
    assert_eq!(ccd.pending_len(), 0);
}

#[test]
fn a_failed_read_is_handed_back_as_the_transport_gave_it() {
    struct Failing;
    impl IoAdapter for Failing {
        fn write_all(&mut self, _buf: &[u8]) -> Result<()> {
            Ok(())
        }
        fn read(&mut self, _buf: &mut [u8]) -> Result<usize> {
            Err(Error::IoError(std::io::Error::new(std::io::ErrorKind::TimedOut, "late")))
        }
    }
    let mut ccd = CCD::new(Failing);
    match ccd.get_avg_time() {
        Err(Error::IoError(e)) => assert_eq!(e.kind(), std::io::ErrorKind::TimedOut),
        other => panic!("{:?}", other),
    }
    let mut frames: Vec<Frame> = vec![[5; FRAME_PIXEL_COUNT]];
    assert!(matches!(ccd.get_frames(&mut frames, 3), Err(Error::IoError(_))));
    // What the sink held stays, and nothing made up is pushed.
    assert_eq!(frames.len(), 1);
    assert!(frames[0].iter().all(|sample| *sample == 5));
}

#[test]
fn frames_pushed_before_a_failure_are_those_that_came() {
    let first = frame_packet(0x1111);
    let second = frame_packet(0x2222);
    let mut third = frame_packet(0x3333);
    third.truncate(4000);
    let mut frames: Vec<Frame> = vec![[9; FRAME_PIXEL_COUNT]];
    let mut ccd = CCD::new(Script::new(&[&first, &second, &third]));
    assert!(matches!(ccd.get_frames(&mut frames, 3), Err(Error::UnexpectedEop)));
    assert_eq!(frames.len(), 3);
    assert!(frames[0].iter().all(|sample| *sample == 9));
    assert!(frames[1].iter().all(|sample| *sample == 0x1111));
    assert!(frames[2].iter().all(|sample| *sample == 0x2222));
    // The beginning of the third frame still waits.
    assert_eq!(ccd.pending_len(), 4000);
}
