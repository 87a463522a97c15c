//! The parser is held against the same grammar written with the
//! streaming combinators of `nom`, on inputs made by mutating and cutting
//! valid responses.

use ccd_lcamv06::parser::{parse_response, Parsed};
use ccd_lcamv06::{BaudRate, Response, VersionDetails, FRAME_PIXEL_COUNT};
use nom::bytes::streaming::{tag, take, take_till1, take_while1};
use nom::error::{Error as NomError, ErrorKind};
use nom::number::streaming::{be_u16, be_u8};
use nom::{IResult, Needed};

fn refuse<T>(input: &[u8]) -> IResult<&[u8], T> {
    Err(nom::Err::Error(NomError::new(input, ErrorKind::Verify)))
}

fn byte(expected: u8) -> impl Fn(&[u8]) -> IResult<&[u8], u8> {
    move |input: &[u8]| {
        let (rest, found) = be_u8(input)?;
        if found == expected {
            Ok((rest, found))
        } else {
            refuse(input)
        }
    }
}

fn separator(c: u8) -> bool {
    c == b' ' || c == b','
}

fn word(input: &[u8]) -> IResult<&[u8], &str> {
    // A field holds 23 bytes at most, ended or not.
    if input.len() >= 24 && !input[..24].iter().any(|c| separator(*c)) {
        return refuse(input);
    }
    let (rest, token) = take_till1(separator)(input)?;
    let text = match std::str::from_utf8(token) {
        Ok(text) => text,
        Err(_) => return refuse(input),
    };
    let (rest, _) = take_while1(separator)(rest)?;
    Ok((rest, text))
}

fn version(input: &[u8]) -> IResult<&[u8], Response> {
    let (input, _) = tag("HdInfo:")(input)?;
    let (input, hw_ver) = word(input)?;
    let (input, sensor) = word(input)?;
    let (input, fw_ver) = word(input)?;
    let (rest, serial) = take(12usize)(input)?;
    let serial = match std::str::from_utf8(serial) {
        Ok(serial) => serial,
        Err(_) => return refuse(input),
    };
    match VersionDetails::try_new(hw_ver, sensor, fw_ver, serial) {
        Ok(details) => Ok((rest, Response::VersionInfo(details))),
        Err(_) => refuse(input),
    }
}

fn frame(input: &[u8]) -> IResult<&[u8], Response> {
    let (input, scan_size) = be_u16(input)?;
    if scan_size as usize != 2 * FRAME_PIXEL_COUNT && scan_size != 0 {
        return refuse(input);
    }
    let (input, _) = byte(0x00)(input)?;
    let remaining = 2 * FRAME_PIXEL_COUNT + 2;
    if input.len() < remaining {
        return Err(nom::Err::Incomplete(Needed::new(remaining - input.len())));
    }
    let mut data = [0u16; FRAME_PIXEL_COUNT];
    let mut input = input;
    for sample in data.iter_mut() {
        let (rest, value) = be_u16(input)?;
        *sample = value;
        input = rest;
    }
    let (input, _crc) = be_u16(input)?;
    Ok((input, Response::SingleReading(data)))
}

fn exposure_time(input: &[u8]) -> IResult<&[u8], Response> {
    let (input, value) = be_u16(input)?;
    let (input, _) = byte(0xFF)(input)?;
    Ok((input, Response::ExposureTime(value)))
}

fn average_time(input: &[u8]) -> IResult<&[u8], Response> {
    let (input, value) = be_u8(input)?;
    let (input, _) = byte(0x00)(input)?;
    let (input, _) = byte(0xFF)(input)?;
    Ok((input, Response::AverageTime(value)))
}

fn baud_rate(input: &[u8]) -> IResult<&[u8], Response> {
    let (input, code) = be_u8(input)?;
    let (input, _) = byte(0x00)(input)?;
    let (input, _) = byte(0xFF)(input)?;
    match BaudRate::try_from_code(code) {
        Ok(rate) => Ok((input, Response::SerialBaudRate(rate))),
        Err(_) => refuse(input),
    }
}

fn binary(input: &[u8]) -> IResult<&[u8], Response> {
    let (input, _) = byte(0x81)(input)?;
    let (input, opcode) = be_u8(input)?;
    match opcode {
        0x01 => frame(input),
        0x02 => exposure_time(input),
        0x0E => average_time(input),
        0x16 => baud_rate(input),
        _ => refuse(input),
    }
}

/// First the binary grammar, and the version report where that one
/// refuses.
fn grammar(input: &[u8]) -> IResult<&[u8], Response> {
    match binary(input) {
        Err(nom::Err::Error(_)) => version(input),
        other => other,
    }
}

fn agree(input: &[u8]) {
    let ours = parse_response(input);
    match grammar(input) {
        Ok((tail, response)) => match ours {
            Parsed::Complete { tail: our_tail, response: our_response, .. } => {
                assert_eq!(our_tail, tail, "{:02X?}", &input[..input.len().min(64)]);
                assert_eq!(our_response, response);
            }
            other => panic!("{:?} for {:02X?}", other, &input[..input.len().min(64)]),
        },
        Err(nom::Err::Incomplete(Needed::Size(n))) => {
            assert_eq!(ours, Parsed::Incomplete(n.get()), "{:02X?}", &input[..input.len().min(64)])
        }
        Err(nom::Err::Incomplete(Needed::Unknown)) => panic!("a count is always given"),
        Err(_) => assert_eq!(ours, Parsed::Invalid, "{:02X?}", &input[..input.len().min(64)]),
    }
}

struct Random(u64);

impl Random {
    fn next(&mut self) -> u32 {
        self.0 = self.0.wrapping_mul(6364136223846793005).wrapping_add(1442695040888963407);
        (self.0 >> 33) as u32
    }

    fn below(&mut self, bound: usize) -> usize {
        self.next() as usize % bound
    }
}

fn frame_packet(random: &mut Random, scan_size: u16) -> Vec<u8> {
    let mut packet = vec![0x81, 0x01];
    packet.extend_from_slice(&scan_size.to_be_bytes());
    packet.push(0x00);
    for _ in 0..2 * FRAME_PIXEL_COUNT + 2 {
        packet.push(random.next() as u8);
    }
    packet
}

fn samples(random: &mut Random) -> Vec<Vec<u8>> {
    vec![
        vec![0x81, 0x02, random.next() as u8, random.next() as u8, 0xFF],
        vec![0x81, 0x0E, random.next() as u8, 0x00, 0xFF],
        vec![0x81, 0x16, 1 + (random.next() % 3) as u8, 0x00, 0xFF],
        b"HdInfo:LCAM_V8.4.2,S11639,V4.2,202111161548".to_vec(),
        b"HdInfo:A B C 123456789012".to_vec(),
        b"HdInfo:12345678901234567890123, ,x,y ,,123456789012".to_vec(),
        "HdInfo:é,ü,ö,äääääää".as_bytes().to_vec(),
        frame_packet(random, 7388),
        frame_packet(random, 0),
    ]
}

#[test]
fn every_beginning_of_a_response() {
    let mut random = Random(1);
    for sample in samples(&mut random) {
        let step = if sample.len() > 100 { 97 } else { 1 };
        let mut cut = 0;
        while cut <= sample.len() {
            agree(&sample[..cut]);
            cut += step;
        }
        agree(&sample);
        // With what follows in the stream behind it.
        let mut followed = sample.clone();
        followed.extend_from_slice(&[0x81, 0x02, 0x00]);
        agree(&followed);
    }
}

#[test]
fn responses_with_one_byte_changed() {
    let mut random = Random(2);
    for round in 0..40 {
        for sample in samples(&mut random) {
            let mut changed = sample.clone();
            let at =
                if changed.len() > 100 { random.below(8) } else { random.below(changed.len()) };
            changed[at] = match round % 4 {
                0 => random.next() as u8,
                1 => b',',
                2 => 0x81,
                _ => changed[at].wrapping_add(1),
            };
            let cut = if changed.len() > 100 {
                changed.len()
            } else {
                random.below(changed.len() + 1)
            };
            agree(&changed);
            agree(&changed[..cut]);
        }
    }
}

#[test]
fn responses_with_bytes_put_in() {
    let mut random = Random(3);
    for _ in 0..200 {
        for sample in samples(&mut random) {
            if sample.len() > 100 {
                continue;
            }
            let mut longer = sample.clone();
            let at = random.below(longer.len() + 1);
            let count = 1 + random.below(30);
            for _ in 0..count {
                let filler = match random.below(4) {
                    0 => b',',
                    1 => b' ',
                    2 => b'A' + (random.next() % 26) as u8,
                    _ => random.next() as u8,
                };
                longer.insert(at, filler);
            }
            agree(&longer);
        }
    }
}

#[test]
fn bytes_at_random() {
    let mut random = Random(4);
    for _ in 0..3000 {
        let len = random.below(40);
        let mut input: Vec<u8> = (0..len).map(|_| random.next() as u8).collect();
        agree(&input);
        // More often than chance has it, a beginning that is right.
        if !input.is_empty() {
            input[0] = 0x81;
            agree(&input);
            if input.len() > 1 {
                input[1] = [0x01, 0x02, 0x0E, 0x16][random.below(4)];
                agree(&input);
            }
        }
        let mut tagged = b"HdInfo:".to_vec();
        tagged.extend(input.iter().map(|b| match b % 8 {
            0 => b',',
            1 => b' ',
            _ => *b,
        }));
        agree(&tagged);
        agree(&tagged[..random.below(tagged.len() + 1)]);
    }
}

#[test]
fn the_parser_gives_the_same_for_the_same() {
    let mut random = Random(5);
    for sample in samples(&mut random) {
        let copy = sample.clone();
        assert_eq!(parse_response(&sample), parse_response(&copy));
    }
}
