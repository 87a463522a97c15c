use ccd_lcamv06::error::{Error, Result};
use ccd_lcamv06::parser::{align_response, compute_checksum, parse_response, Parsed};
use ccd_lcamv06::{
    encode_command, BaudRate, Command, Frame, IoAdapter, Response, TriggerMode, CCD,
    FRAME_PIXEL_COUNT,
};

struct Random(u64);

impl Random {
    fn next(&mut self) -> u32 {
        self.0 = self.0.wrapping_mul(6364136223846793005).wrapping_add(1442695040888963407);
        (self.0 >> 33) as u32
    }

    fn below(&mut self, bound: usize) -> usize {
        self.next() as usize % bound
    }
}

#[test]
fn commands_are_five_bytes_with_their_opcode() {
    let table: Vec<(Command, [u8; 5])> = vec![
        (Command::SingleRead, [0x81, 0x01, 0x00, 0x00, 0xFF]),
        (Command::ContinuousRead, [0x81, 0x02, 0x00, 0x00, 0xFF]),
        (Command::SetIntegrationTime(0xABCD), [0x81, 0x03, 0xAB, 0xCD, 0xFF]),
        (Command::SetIntegrationTime(10), [0x81, 0x03, 0x00, 0x0A, 0xFF]),
        (Command::PauseRead, [0x81, 0x06, 0x00, 0x00, 0xFF]),
        (Command::SetTriggerMode(TriggerMode::Soft), [0x81, 0x07, 0x00, 0x00, 0xFF]),
        (Command::SetTriggerMode(TriggerMode::ContinuousHard), [0x81, 0x07, 0x01, 0x00, 0xFF]),
        (Command::SetTriggerMode(TriggerMode::SingleHard), [0x81, 0x07, 0x02, 0x00, 0xFF]),
        (Command::GetVersion, [0x81, 0x09, 0x00, 0x00, 0xFF]),
        (Command::GetExposureTime, [0x81, 0x0A, 0x00, 0x00, 0xFF]),
        (Command::SetAverageTime(0x7F), [0x81, 0x0C, 0x7F, 0x00, 0xFF]),
        (Command::GetAverageTime, [0x81, 0x0E, 0x00, 0x00, 0xFF]),
        (Command::SetSerialBaudRate(BaudRate::Baud115200), [0x81, 0x13, 0x01, 0x00, 0xFF]),
        (Command::SetSerialBaudRate(BaudRate::Baud384000), [0x81, 0x13, 0x02, 0x00, 0xFF]),
        (Command::SetSerialBaudRate(BaudRate::Baud921600), [0x81, 0x13, 0x03, 0x00, 0xFF]),
        (Command::GetSerialBaudRate, [0x81, 0x16, 0x00, 0x00, 0xFF]),
    ];
    for (command, bytes) in table {
        assert_eq!(command.encode(), bytes);
        assert_eq!(encode_command(&command), bytes);
        assert_eq!(command.code(), bytes[1]);
    }
}

#[test]
fn integration_times_are_big_endian() {
    for t in [0u16, 1, 255, 256, 0x1234, 0xFF00, 0xFFFF] {
        let bytes = Command::SetIntegrationTime(t).encode();
        assert_eq!([bytes[2], bytes[3]], t.to_be_bytes());
    }
}

#[test]
fn baud_rates_and_their_codes() {
    assert_eq!(BaudRate::default(), BaudRate::Baud115200);
    for (rate, code, value, text) in [
        (BaudRate::Baud115200, 1u8, 115200u32, "115200"),
        (BaudRate::Baud384000, 2, 384000, "384000"),
        (BaudRate::Baud921600, 3, 921600, "921600"),
    ] {
        assert_eq!(rate.to_code(), code);
        assert_eq!(BaudRate::try_from_code(code).unwrap(), rate);
        assert_eq!(rate.to_u32(), value);
        assert_eq!(BaudRate::from_u32(value), Some(rate));
        assert_eq!(rate.to_text(), text);
    }
    for code in [0u8, 4, 0x81, 0xFF] {
        assert!(matches!(BaudRate::try_from_code(code), Err(Error::InvalidBaudRate)));
    }
    for value in [0u32, 9600, 115201, 921599] {
        assert_eq!(BaudRate::from_u32(value), None);
    }
    assert_eq!(TriggerMode::Soft.to_code(), 0);
    assert_eq!(TriggerMode::ContinuousHard.to_code(), 1);
    assert_eq!(TriggerMode::SingleHard.to_code(), 2);
}

#[test]
fn short_responses_parse_and_encode_again() {
    // What is read back as a value is what the setter of that value sends,
    // but for the opcode.
    for t in [0u16, 1, 0x00FF, 0xABCD, 0xFFFF] {
        let [hi, lo] = t.to_be_bytes();
        let packet = [0x81, 0x02, hi, lo, 0xFF];
        assert_eq!(
            parse_response(&packet),
            Parsed::Complete { tail: &[], response: Response::ExposureTime(t), checksum_ok: true }
        );
        let again = Command::SetIntegrationTime(t).encode();
        assert_eq!(again, [0x81, 0x03, hi, lo, 0xFF]);
    }
    for t in [0u8, 1, 0xAB, 0xFF] {
        let packet = [0x81, 0x0E, t, 0x00, 0xFF];
        assert_eq!(
            parse_response(&packet),
            Parsed::Complete { tail: &[], response: Response::AverageTime(t), checksum_ok: true }
        );
        assert_eq!(Command::SetAverageTime(t).encode(), [0x81, 0x0C, t, 0x00, 0xFF]);
    }
    for rate in [BaudRate::Baud115200, BaudRate::Baud384000, BaudRate::Baud921600] {
        let packet = [0x81, 0x16, rate.to_code(), 0x00, 0xFF];
        assert_eq!(
            parse_response(&packet),
            Parsed::Complete {
                tail: &[],
                response: Response::SerialBaudRate(rate),
                checksum_ok: true
            }
        );
        assert_eq!(
            Command::SetSerialBaudRate(rate).encode(),
            [0x81, 0x13, rate.to_code(), 0x00, 0xFF]
        );
    }
}

fn frame_packet(frame: &Frame) -> Vec<u8> {
    let mut packet = vec![0x81, 0x01, 0x1C, 0xDC, 0x00];
    for sample in frame.iter() {
        packet.extend_from_slice(&sample.to_be_bytes());
    }
    let crc = packet[5..].iter().fold(0u16, |sum, b| sum.wrapping_add(*b as u16));
    packet.extend_from_slice(&crc.to_be_bytes());
    packet
}

fn random_frame(random: &mut Random) -> Frame {
    let mut frame: Frame = [0; FRAME_PIXEL_COUNT];
    for sample in frame.iter_mut() {
        *sample = random.next() as u16;
    }
    frame
}

#[test]
fn frames_come_back_as_they_were_sent() {
    let mut random = Random(7);
    let mut frames =
        vec![[0u16; FRAME_PIXEL_COUNT], [0xFFFF; FRAME_PIXEL_COUNT], [0xABCD; FRAME_PIXEL_COUNT]];
    for _ in 0..5 {
        frames.push(random_frame(&mut random));
    }
    for frame in frames {
        let packet = frame_packet(&frame);
        assert_eq!(packet.len(), 7395);
        assert_eq!(
            parse_response(&packet),
            Parsed::Complete {
                tail: &[],
                response: Response::SingleReading(frame),
                checksum_ok: true
            }
        );
    }
}

#[test]
fn a_scan_size_of_zero_is_taken_too() {
    let frame: Frame = [0x0102; FRAME_PIXEL_COUNT];
    let mut packet = frame_packet(&frame);
    packet[2] = 0;
    packet[3] = 0;
    assert_eq!(
        parse_response(&packet),
        Parsed::Complete { tail: &[], response: Response::SingleReading(frame), checksum_ok: true }
    );
    packet[3] = 1;
    assert_eq!(parse_response(&packet), Parsed::Invalid);
    packet[2] = 0x1C;
    packet[3] = 0xDC;
    packet[4] = 1;
    assert_eq!(parse_response(&packet), Parsed::Invalid);
}

#[test]
fn the_checksum_is_the_sum_of_the_bytes_with_wrap_around() {
    assert_eq!(compute_checksum(&[]), 0);
    assert_eq!(compute_checksum(&[1, 2, 3]), 6);
    assert_eq!(compute_checksum(&[0xFF; 257]), 0xFFFF);
    assert_eq!(compute_checksum(&[0xFF; 258]), 0x00FE);
    // 7388 bytes of 16 are 118208, which is 52672 above 65536.
    assert_eq!(compute_checksum(&[16; 7388]), 52672);

    let frame: Frame = [0xFFFF; FRAME_PIXEL_COUNT];
    let mut packet = frame_packet(&frame);
    let last = packet.len() - 1;
    packet[last] = packet[last].wrapping_add(1);
    assert_eq!(
        parse_response(&packet),
        Parsed::Complete {
            tail: &[],
            response: Response::SingleReading(frame),
            checksum_ok: false
        }
    );
}

#[test]
fn frames_lack_exactly_what_is_missing() {
    let packet = frame_packet(&[7; FRAME_PIXEL_COUNT]);
    assert_eq!(parse_response(&packet[..2]), Parsed::Incomplete(2));
    assert_eq!(parse_response(&packet[..3]), Parsed::Incomplete(1));
    assert_eq!(parse_response(&packet[..4]), Parsed::Incomplete(1));
    assert_eq!(parse_response(&packet[..5]), Parsed::Incomplete(7390));
    assert_eq!(parse_response(&packet[..6]), Parsed::Incomplete(7389));
    assert_eq!(parse_response(&packet[..7394]), Parsed::Incomplete(1));
}

#[test]
fn an_incomplete_response_stays_incomplete_until_it_has_what_it_asked_for() {
    let mut random = Random(11);
    let mut samples: Vec<Vec<u8>> = vec![
        vec![0x81, 0x02, 0x12, 0x34, 0xFF],
        vec![0x81, 0x0E, 0x12, 0x00, 0xFF],
        vec![0x81, 0x16, 0x02, 0x00, 0xFF],
        b"HdInfo:LCAM_V8.4.2,S11639,V4.2,202111161548".to_vec(),
    ];
    samples.push(frame_packet(&random_frame(&mut random)));
    for sample in samples {
        let step = if sample.len() > 100 { 211 } else { 1 };
        let mut cut = 0;
        while cut < sample.len() {
            let beginning = &sample[..cut];
            let needed = match parse_response(beginning) {
                Parsed::Incomplete(n) => n,
                other => panic!("{:?}", other),
            };
            assert!(needed >= 1);
            // Beginnings of the tag aside, any bytes will do.
            let is_partial_tag = sample[0] == b'H' && (1..=5).contains(&cut);
            for added in 0..needed.min(9) {
                let mut longer = beginning.to_vec();
                for _ in 0..added {
                    longer.push(random.next() as u8);
                }
                let outcome = parse_response(&longer);
                assert!(!matches!(outcome, Parsed::Complete { .. }));
                if !is_partial_tag {
                    assert!(matches!(outcome, Parsed::Incomplete(_)), "{:?}", longer);
                }
            }
            // One byte less than asked for is never enough.
            let mut longer = sample[..(cut + needed - 1).min(sample.len())].to_vec();
            while longer.len() < cut + needed - 1 {
                longer.push(0);
            }
            assert!(matches!(parse_response(&longer), Parsed::Incomplete(_)));
            cut += step;
        }
    }
}

#[test]
fn a_beginning_of_the_tag_turns_invalid_on_a_wrong_byte() {
    assert_eq!(parse_response(b"Hd"), Parsed::Incomplete(5));
    assert_eq!(parse_response(b"HdXX"), Parsed::Invalid);
}

#[test]
fn aligning_twice_is_aligning_once() {
    let mut random = Random(13);
    for _ in 0..2000 {
        let len = random.below(30);
        let mut input: Vec<u8> = (0..len).map(|_| (random.next() % 4) as u8 + 0x7F).collect();
        if random.below(3) == 0 {
            let at = random.below(input.len() + 1);
            for (i, b) in b"HdInfo:".iter().enumerate() {
                input.insert(at + i, *b);
            }
            input.truncate(30);
        }
        match align_response(&input) {
            Some(aligned) => {
                assert_eq!(align_response(aligned), Some(aligned));
                assert!(aligned[0] == 0x81 || aligned.starts_with(b"HdInfo:"));
                // Nothing in front of it could begin a response.
                let skipped = input.len() - aligned.len();
                for i in 0..skipped {
                    assert!(input[i] != 0x81 && !input[i..].starts_with(b"HdInfo:"));
                }
            }
            None => {
                assert!(!input.contains(&0x81));
                assert!(!input.windows(7).any(|w| w == b"HdInfo:"));
            }
        }
    }
}

#[test]
fn bytes_at_random_give_one_of_three_outcomes() {
    let mut random = Random(17);
    for _ in 0..5000 {
        let len = random.below(64);
        let mut input: Vec<u8> = (0..len).map(|_| random.next() as u8).collect();
        if !input.is_empty() && random.below(2) == 0 {
            input[0] = 0x81;
        }
        match parse_response(&input) {
            Parsed::Complete { tail, .. } => {
                assert!(tail.len() < input.len());
                assert_eq!(tail, &input[input.len() - tail.len()..]);
            }
            Parsed::Incomplete(needed) => assert!(needed >= 1),
            Parsed::Invalid => {}
        }
    }
}

/// A transport that plays back one chunk of bytes for each read.
struct Playback {
    chunks: Vec<Vec<u8>>,
    next: usize,
}

impl IoAdapter for Playback {
    fn write_all(&mut self, _buf: &[u8]) -> Result<()> {
        Ok(())
    }

    fn read(&mut self, buf: &mut [u8]) -> Result<usize> {
        if self.next == self.chunks.len() {
            return Ok(0);
        }
        let chunk = &self.chunks[self.next];
        self.next += 1;
        assert!(chunk.len() <= buf.len());
        buf[..chunk.len()].copy_from_slice(chunk);
        Ok(chunk.len())
    }
}

#[test]
fn garbage_in_front_of_a_response_costs_one_resync() {
    let mut random = Random(19);
    for _ in 0..300 {
        // Garbage in which no response can begin.
        let len = 1 + random.below(3000);
        let garbage: Vec<u8> = (0..len)
            .map(|_| match random.next() as u8 {
                0x81 | b'H' => 0,
                other => other,
            })
            .collect();
        let t = random.next() as u8;
        let mut first_read = garbage.clone();
        first_read.extend_from_slice(&[0x81, 0x0E, t, 0x00, 0xFF]);
        // The garbage and the response come in one read, or the response
        // comes in a read of its own.
        let chunks = if random.below(2) == 0 {
            vec![first_read]
        } else {
            vec![garbage, vec![0x81, 0x0E, t, 0x00, 0xFF]]
        };
        let mut ccd = CCD::new(Playback { chunks, next: 0 });
        assert_eq!(ccd.get_avg_time().unwrap(), t);
        assert_eq!(ccd.pending_len(), 0);
    }
}

#[test]
fn garbage_that_holds_the_prefix_is_not_recovered_from() {
    let mut ccd = CCD::new(Playback {
        chunks: vec![vec![0x00, 0x81, 0x00, 0x81, 0x0E, 0x01, 0x00, 0xFF]],
        next: 0,
    });
    assert!(matches!(ccd.get_avg_time(), Err(Error::InvalidData)));
    // The resync dropped what stood in front of the first prefix byte.
    assert_eq!(ccd.pending_len(), 7);
    // The caller may drop the rest.
    ccd.clear_buffer();
    assert_eq!(ccd.pending_len(), 0);
}

#[test]
fn a_transport_that_reports_more_than_it_was_given_is_refused() {
    struct Liar;
    impl IoAdapter for Liar {
        fn write_all(&mut self, _buf: &[u8]) -> Result<()> {
            Ok(())
        }
        fn read(&mut self, buf: &mut [u8]) -> Result<usize> {
            Ok(buf.len() + 1)
        }
    }
    let mut ccd = CCD::new(Liar);
    assert!(matches!(ccd.fill_buffer(), Err(Error::InvalidData)));
    assert_eq!(ccd.pending_len(), 0);
}

#[test]
fn the_steps_of_a_session_one_by_one() {
    let mut ccd = CCD::new(Playback {
        chunks: vec![vec![0xAA, 0xBB, 0x81, 0x02], vec![0x01, 0x02, 0xFF, 0x81]],
        next: 0,
    });
    ccd.fill_buffer().unwrap();
    assert_eq!(ccd.pending_len(), 4);
    ccd.align_buffer();
    assert_eq!(ccd.pending_len(), 2);
    // Aligned already: nothing more is dropped.
    ccd.align_buffer();
    assert_eq!(ccd.pending_len(), 2);
    assert_eq!(ccd.poll_buffer(), ccd_lcamv06::stream::Poll::Pending);
    ccd.fill_buffer().unwrap();
    assert_eq!(ccd.pending_len(), 6);
    assert_eq!(
        ccd.poll_buffer(),
        ccd_lcamv06::stream::Poll::Ready {
            response: Response::ExposureTime(0x0102),
            checksum_ok: true
        }
    );
    assert_eq!(ccd.pending_len(), 1);
    // Nothing more comes.
    ccd.fill_buffer().unwrap();
    assert_eq!(ccd.pending_len(), 1);
    assert!(matches!(ccd.receive_package(), Err(Error::UnexpectedEop)));
    ccd.send_package(Command::PauseRead).unwrap();
}
