//! Laws of the wire format, proved over the specifications of the encoder
//! and of the parser.

use crate::command::{
    be16, high_byte, low_byte, Command, PACKET_HEADER_SIZE, PACKET_PREFIX, PACKET_TERMINATOR,
};
use crate::error::Error;
use crate::flags::{baud_from_code, is_baud_code};
use crate::hex_parser::decode_all;
use crate::parser::{
    align_spec, checksum, frame_of_data, lemma_align_idempotent, lemma_align_offset_is,
    lemma_complete_survives_growth, parse_spec, starts_response, ParsedView,
    OPCODE_AVERAGE_TIME, OPCODE_EXPOSURE_TIME, OPCODE_SERIAL_BAUD_RATE, OPCODE_SINGLE_READING,
};
use crate::response::{
    ResponseView, FRAME_DATA_SIZE, FRAME_PIXEL_COUNT, FRAME_PIXEL_PREFIX, MAX_PACKET_SIZE,
};
use crate::stream::{lemma_wait_of_one_read, poll_spec, wait_spec, wait_step_spec};
use crate::version_parser::{
    lemma_word_at, lemma_word_survives_growth, matches_tag, version_tag, word_at,
    VERSION_TAG_SIZE,
};
use vstd::prelude::*;

verus! {

/// Whether `s` is a short response in its wire form: five bytes, of which
/// the first is the prefix, the second the opcode of an exposure time, an
/// average time or a baud rate, and the rest laid out as that opcode
/// asks.
pub open spec fn is_short_response(s: Seq<u8>) -> bool {
    &&& s.len() == PACKET_HEADER_SIZE
    &&& s[0] == PACKET_PREFIX
    &&& s[4] == PACKET_TERMINATOR
    &&& {
        ||| s[1] == OPCODE_EXPOSURE_TIME
        ||| s[1] == OPCODE_AVERAGE_TIME && s[3] == 0x00
        ||| s[1] == OPCODE_SERIAL_BAUD_RATE && s[3] == 0x00 && is_baud_code(s[2])
    }
}

/// The value that the short response `s` carries.
pub open spec fn short_response_value(s: Seq<u8>) -> ResponseView {
    if s[1] == OPCODE_EXPOSURE_TIME {
        ResponseView::ExposureTime(be16(s[2], s[3]))
    } else if s[1] == OPCODE_AVERAGE_TIME {
        ResponseView::AverageTime(s[2])
    } else {
        ResponseView::SerialBaudRate(baud_from_code(s[2]))
    }
}

/// The command that sets what the short response `response` reports.
pub open spec fn setter_of(response: ResponseView) -> Command {
    match response {
        ResponseView::ExposureTime(t) => Command::SetIntegrationTime(t),
        ResponseView::AverageTime(t) => Command::SetAverageTime(t),
        ResponseView::SerialBaudRate(b) => Command::SetSerialBaudRate(b),
        _ => Command::PauseRead,
    }
}

/// Splitting a value into its big-endian bytes and joining them again
/// gives the value back, and the other way round.
pub proof fn lemma_be16_round_trip(v: u16, hi: u8, lo: u8)
    ensures
        be16(high_byte(v), low_byte(v)) == v,
        high_byte(be16(hi, lo)) == hi,
        low_byte(be16(hi, lo)) == lo,
{
}

/// An encoded command is five bytes: the prefix, the opcode of the
/// command, two data bytes and the terminator.
pub proof fn lemma_encoded_command_shape(c: Command)
    ensures
        c.encode_spec().len() == PACKET_HEADER_SIZE,
        c.encode_spec()[0] == PACKET_PREFIX,
        c.encode_spec()[1] == c.code_spec(),
        c.encode_spec()[4] == PACKET_TERMINATOR,
{
}

/// Every short response in its wire form parses completely, with nothing
/// left over, to the value it carries. Encoding that value again, as the
/// command that sets it, gives the bytes of the response but for the
/// opcode, which is the opcode of that command.
pub proof fn lemma_short_response_round_trip(s: Seq<u8>)
    requires
        is_short_response(s),
    ensures
        parse_spec(s) == (ParsedView::Complete {
            tail: Seq::<u8>::empty(),
            response: short_response_value(s),
            checksum_ok: true,
        }),
        setter_of(short_response_value(s)).encode_spec() == s.update(
            1,
            setter_of(short_response_value(s)).code_spec(),
        ),
{
    assert(s.subrange(PACKET_HEADER_SIZE as int, s.len() as int) =~= Seq::<u8>::empty());
    let again = setter_of(short_response_value(s)).encode_spec();
    assert(again =~= s.update(1, setter_of(short_response_value(s)).code_spec()));
}

/// The data bytes of a pixel-frame packet that carries `frame`: each
/// pixel as two bytes, the high one first, with zeros for the padding
/// pixels in front and behind.
pub open spec fn frame_data(frame: Seq<u16>) -> Seq<u8> {
    Seq::new(
        FRAME_DATA_SIZE as nat,
        |i: int|
            {
                let pixel = i / 2 - FRAME_PIXEL_PREFIX;
                if 0 <= pixel < frame.len() {
                    if i % 2 == 0 {
                        high_byte(frame[pixel])
                    } else {
                        low_byte(frame[pixel])
                    }
                } else {
                    0u8
                }
            },
    )
}

/// The pixel-frame packet that carries `frame`: the head with the scan
/// size, the data, and the additive checksum of the data.
pub open spec fn frame_packet(frame: Seq<u16>) -> Seq<u8> {
    seq![
        PACKET_PREFIX,
        OPCODE_SINGLE_READING,
        high_byte(FRAME_DATA_SIZE as u16),
        low_byte(FRAME_DATA_SIZE as u16),
        0x00u8,
    ] + frame_data(frame) + seq![
        high_byte(checksum(frame_data(frame))),
        low_byte(checksum(frame_data(frame))),
    ]
}

/// A frame that is encoded with its right checksum and parsed again is
/// the same frame, and nothing is left over.
pub proof fn lemma_frame_round_trip(frame: Seq<u16>)
    requires
        frame.len() == FRAME_PIXEL_COUNT,
    ensures
        parse_spec(frame_packet(frame)) == (ParsedView::Complete {
            tail: Seq::<u8>::empty(),
            response: ResponseView::SingleReading(frame),
            checksum_ok: true,
        }),
{
    let packet = frame_packet(frame);
    let data = packet.subrange(PACKET_HEADER_SIZE as int, PACKET_HEADER_SIZE + FRAME_DATA_SIZE);
    assert(packet.len() == MAX_PACKET_SIZE);
    assert(data =~= frame_data(frame));
    assert(frame_of_data(data) =~= frame) by {
        assert forall|i: int| 0 <= i < FRAME_PIXEL_COUNT implies frame_of_data(data)[i]
            == frame[i] by {
            let at = 2 * (FRAME_PIXEL_PREFIX + i);
            assert(data[at] == high_byte(frame[i]));
            assert(data[at + 1] == low_byte(frame[i]));
        }
    }
    assert(packet.subrange(MAX_PACKET_SIZE as int, packet.len() as int) =~= Seq::<u8>::empty());
}

/// Aligning what `align` gave changes nothing.
pub proof fn lemma_align_is_idempotent(b: Seq<u8>)
    requires
        align_spec(b) is Some,
    ensures
        align_spec(align_spec(b)->0) == align_spec(b),
{
    lemma_align_idempotent(b);
}

/// Whether `b` is a beginning of the version tag that lacks two bytes of
/// it or more.
pub open spec fn is_partial_tag(b: Seq<u8>) -> bool {
    0 < b.len() < VERSION_TAG_SIZE - 1 && matches_tag(b, b.len() as int)
}

/// What an incomplete parse says of every longer input: with fewer bytes
/// added than it asked for, the input is still no complete response.
pub proof fn lemma_incomplete_needs_what_it_says(b: Seq<u8>, e: Seq<u8>)
    requires
        parse_spec(b) matches ParsedView::Incomplete(n) && e.len() < n,
    ensures
        !(parse_spec(b + e) is Complete),
{
    if is_partial_tag(b) {
        let t = b + e;
        assert(t.len() < VERSION_TAG_SIZE);
        assert(t[0] == b[0]);
    } else {
        lemma_incomplete_stays_incomplete(b, e);
    }
}

/// The parser is monotonic on beginnings: where it finds `b` incomplete
/// and asks for `n` bytes, `b` with fewer than `n` bytes added is still
/// incomplete, neither complete nor invalid.
///
/// Left out are the beginnings of the version tag that lack two bytes or
/// more: the parser asks for the rest of the tag, and a byte that is not
/// the next byte of the tag makes the input invalid.
pub proof fn lemma_incomplete_stays_incomplete(b: Seq<u8>, e: Seq<u8>)
    requires
        parse_spec(b) matches ParsedView::Incomplete(n) && e.len() < n,
        !is_partial_tag(b),
    ensures
        parse_spec(b + e) is Incomplete,
{
    let t = b + e;
    if e.len() == 0 {
        assert(t =~= b);
    } else if b.len() == 0 {
    } else if b[0] == PACKET_PREFIX {
        assert(t[0] == b[0]);
        assert(b.len() >= 2);
        assert(t[1] == b[1]);
        if b.len() >= 4 {
            assert(t[2] == b[2]);
            assert(t[3] == b[3]);
            assert(b.len() >= PACKET_HEADER_SIZE);
            assert(t[4] == b[4]);
        }
    } else {
        assert(t[0] == b[0]);
        if b.len() < VERSION_TAG_SIZE {
            // Only the last byte of the tag is missing: nothing was added.
            assert(matches_tag(b, b.len() as int));
        } else {
            assert(matches_tag(t, VERSION_TAG_SIZE as int)) by {
                assert forall|i: int| 0 <= i < VERSION_TAG_SIZE implies t[i]
                    == version_tag()[i] by {
                    assert(t[i] == b[i]);
                }
            }
            let first = VERSION_TAG_SIZE as int;
            lemma_word_at(b, first);
            lemma_word_survives_growth(b, e, first);
            let second = word_at(b, first)->next;
            lemma_word_at(b, second);
            lemma_word_survives_growth(b, e, second);
            let third = word_at(b, second)->next;
            lemma_word_at(b, third);
            lemma_word_survives_growth(b, e, third);
        }
    }
}

/// Responses that stand one behind the other are decoded one after the
/// other: a recording that begins with a whole response `first` decodes
/// to that response and then to what the rest of the recording decodes
/// to, and is refused where the rest is.
pub proof fn lemma_decode_all_in_turn(first: Seq<u8>, rest: Seq<u8>)
    requires
        parse_spec(first) matches ParsedView::Complete { tail, .. } && tail.len() == 0,
    ensures
        decode_all(first + rest) == match decode_all(rest) {
            Some(more) => Some(seq![parse_spec(first)->response] + more),
            None => None,
        },
{
    lemma_complete_survives_growth(first, rest);
    assert(parse_spec(first)->tail + rest =~= rest);
}

/// Garbage in front of a response costs one resync.
///
/// Where no response can begin inside the garbage `g`, and one can begin
/// at the head of `p`, the parser refuses `g` followed by `p`, one resync
/// drops exactly `g`, and the look at the buffer gives what a look at `p`
/// alone gives after a resync.
pub proof fn lemma_garbage_in_front(g: Seq<u8>, p: Seq<u8>)
    requires
        g.len() > 0,
        starts_response(p, 0),
        forall|i: int| 0 <= i < g.len() ==> !starts_response(g + p, i),
    ensures
        parse_spec(g + p) is Invalid,
        align_spec(g + p) == Some(p),
        poll_spec(g + p, false) == poll_spec(p, true),
{
    reveal(poll_spec);
    let t = g + p;
    assert(!starts_response(t, 0));
    assert(t[g.len() as int] == p[0]);
    assert(starts_response(t, g.len() as int)) by {
        if p[0] != PACKET_PREFIX {
            assert(t.subrange(g.len() as int, g.len() + VERSION_TAG_SIZE) =~= p.subrange(
                0,
                VERSION_TAG_SIZE as int,
            ));
        }
    }
    lemma_align_offset_is(t, 0, g.len() as int);
    assert(t.subrange(g.len() as int, t.len() as int) =~= p);
    // The head of `t` is no prefix byte and no whole tag, so it matches
    // the tag nowhere near its end either: a byte of `p` breaks it.
    assert(parse_spec(t) is Invalid) by {
        if t.len() >= VERSION_TAG_SIZE {
            if matches_tag(t, VERSION_TAG_SIZE as int) {
                assert(t.subrange(0, VERSION_TAG_SIZE as int) =~= version_tag());
            }
        } else {
            assert(p[0] == PACKET_PREFIX);
            assert(t[g.len() as int] != version_tag()[g.len() as int]);
        }
    }
}

/// A wait with nothing waiting, whose one read brings the packet of a
/// frame with its right checksum, comes to that frame, whether or not
/// checksums are enforced.
pub proof fn lemma_wait_for_frame(frame: Seq<u16>, crc_enforced: bool)
    requires
        frame.len() == FRAME_PIXEL_COUNT,
    ensures
        wait_spec(
            Seq::empty(),
            crc_enforced,
            seq![Ok::<Seq<u8>, Error>(frame_packet(frame))],
        ) == Some(Ok::<ResponseView, Error>(ResponseView::SingleReading(frame))),
{
    reveal(poll_spec);
    lemma_frame_round_trip(frame);
    lemma_wait_of_one_read(Seq::empty(), crc_enforced, Ok(frame_packet(frame)));
    assert(Seq::<u8>::empty() + frame_packet(frame) =~= frame_packet(frame));
}

/// Garbage in front of a response does not change what a wait comes to.
///
/// Where no response can begin inside the garbage `g`, and one can
/// begin at the head of `p`, a wait with nothing waiting whose one read
/// brings `g` followed by `p` comes to what it comes to where the read
/// brings `p` alone.
pub proof fn lemma_wait_through_garbage(g: Seq<u8>, p: Seq<u8>, crc_enforced: bool)
    requires
        g.len() > 0,
        starts_response(p, 0),
        forall|i: int| 0 <= i < g.len() ==> !starts_response(g + p, i),
    ensures
        wait_spec(Seq::empty(), crc_enforced, seq![Ok::<Seq<u8>, Error>(g + p)]) == wait_spec(
            Seq::empty(),
            crc_enforced,
            seq![Ok::<Seq<u8>, Error>(p)],
        ),
{
    lemma_garbage_in_front(g, p);
    lemma_wait_of_one_read(Seq::empty(), crc_enforced, Ok(g + p));
    lemma_wait_of_one_read(Seq::empty(), crc_enforced, Ok(p));
    assert(Seq::<u8>::empty() + (g + p) =~= g + p);
    assert(Seq::<u8>::empty() + p =~= p);
    assert(wait_step_spec(poll_spec(p, true), true, crc_enforced) == wait_step_spec(
        poll_spec(p, false),
        true,
        crc_enforced,
    )) by {
        reveal(poll_spec);
        lemma_align_idempotent(p);
        assert(p.subrange(0, p.len() as int) =~= p);
    }
}

} // verus!
