//! The streaming response parser and the resync primitive.
//!
//! `parse_response` reads one response from the head of a byte slice. It
//! never looks behind the response, keeps no state, and answers with one
//! of three outcomes: a response and the unused tail, a valid beginning
//! that needs more bytes, or bytes that begin no response.

use crate::command::{be16, PACKET_HEADER_SIZE, PACKET_PREFIX, PACKET_TERMINATOR};
use crate::flags::{baud_from_code, is_baud_code, BaudRate};
use crate::prefix::{PrefixMatch, PrefixMatchView};
use crate::response::{
    Frame, Response, ResponseView, FRAME_DATA_SIZE, FRAME_PIXEL_COUNT, FRAME_PIXEL_PREFIX,
    MAX_PACKET_SIZE,
};
use crate::version_parser::{
    lemma_invalid_version_stays_invalid, lemma_version_needs_bytes,
    lemma_version_survives_growth, lemma_version_tail, parse_version_spec, version_details_parser,
    version_details_prefix, version_tag, VersionParse, VersionParseView, VERSION_TAG_SIZE,
};
use vstd::arithmetic::div_mod::{lemma_add_mod_noop, lemma_small_mod};
use vstd::prelude::*;
use vstd::slice::*;

verus! {

/// Opcode of a pixel-frame response.
pub const OPCODE_SINGLE_READING: u8 = 0x01;

/// Opcode of an exposure-time response.
pub const OPCODE_EXPOSURE_TIME: u8 = 0x02;

/// Opcode of an average-time response.
pub const OPCODE_AVERAGE_TIME: u8 = 0x0E;

/// Opcode of a baud-rate response.
pub const OPCODE_SERIAL_BAUD_RATE: u8 = 0x16;

/// Outcome of one parse.
#[derive(PartialEq, Eq, Debug)]
pub enum Parsed<'a> {
    /// One response was read. `tail` is what follows it in the input.
    /// `checksum_ok` is false only for a pixel frame whose additive
    /// checksum differs from the one the packet carries.
    Complete { tail: &'a [u8], response: Response, checksum_ok: bool },
    /// A valid beginning of a response that lacks at least this many
    /// bytes, a number that is never zero.
    Incomplete(usize),
    /// No response begins here.
    Invalid,
}

/// Outcome of one parse, as a mathematical value.
pub enum ParsedView {
    Complete { tail: Seq<u8>, response: ResponseView, checksum_ok: bool },
    Incomplete(int),
    Invalid,
}

impl<'a> View for Parsed<'a> {
    type V = ParsedView;

    open spec fn view(&self) -> ParsedView {
        match self {
            Parsed::Complete { tail, response, checksum_ok } => ParsedView::Complete {
                tail: tail@,
                response: response@,
                checksum_ok: *checksum_ok,
            },
            Parsed::Incomplete(n) => ParsedView::Incomplete(*n as int),
            Parsed::Invalid => ParsedView::Invalid,
        }
    }
}

/// Sum of the bytes of `s`.
pub open spec fn byte_sum(s: Seq<u8>) -> nat
    decreases s.len(),
{
    if s.len() == 0 {
        0
    } else {
        byte_sum(s.drop_last()) + s.last() as nat
    }
}

/// The additive checksum of a frame: the sum of its data bytes modulo
/// 2^16.
pub open spec fn checksum(s: Seq<u8>) -> u16 {
    (byte_sum(s) % 0x1_0000) as u16
}

/// The samples that the data bytes of a pixel-frame packet hold, without
/// the padding pixels: sample `i` is the big-endian pair at pixel
/// `FRAME_PIXEL_PREFIX + i`.
pub open spec fn frame_of_data(data: Seq<u8>) -> Seq<u16> {
    Seq::new(
        FRAME_PIXEL_COUNT as nat,
        |i: int| be16(data[2 * (FRAME_PIXEL_PREFIX + i)], data[2 * (FRAME_PIXEL_PREFIX + i) + 1]),
    )
}

/// Parses a pixel frame; `s` begins with the prefix and the opcode.
pub open spec fn parse_frame_spec(s: Seq<u8>) -> ParsedView {
    if s.len() < 4 {
        ParsedView::Incomplete(4 - s.len())
    } else if be16(s[2], s[3]) != FRAME_DATA_SIZE && be16(s[2], s[3]) != 0 {
        ParsedView::Invalid
    } else if s.len() < PACKET_HEADER_SIZE {
        ParsedView::Incomplete(1)
    } else if s[4] != 0x00 {
        ParsedView::Invalid
    } else if s.len() < MAX_PACKET_SIZE {
        ParsedView::Incomplete(MAX_PACKET_SIZE - s.len())
    } else {
        let data = s.subrange(PACKET_HEADER_SIZE as int, PACKET_HEADER_SIZE + FRAME_DATA_SIZE);
        ParsedView::Complete {
            tail: s.subrange(MAX_PACKET_SIZE as int, s.len() as int),
            response: ResponseView::SingleReading(frame_of_data(data)),
            checksum_ok: checksum(data) == be16(
                s[PACKET_HEADER_SIZE + FRAME_DATA_SIZE],
                s[PACKET_HEADER_SIZE + FRAME_DATA_SIZE + 1],
            ),
        }
    }
}

/// Parses an exposure time; `s` begins with the prefix and the opcode.
pub open spec fn parse_exposure_time_spec(s: Seq<u8>) -> ParsedView {
    if s.len() < 4 {
        ParsedView::Incomplete(4 - s.len())
    } else if s.len() < PACKET_HEADER_SIZE {
        ParsedView::Incomplete(1)
    } else if s[4] != PACKET_TERMINATOR {
        ParsedView::Invalid
    } else {
        ParsedView::Complete {
            tail: s.subrange(PACKET_HEADER_SIZE as int, s.len() as int),
            response: ResponseView::ExposureTime(be16(s[2], s[3])),
            checksum_ok: true,
        }
    }
}

/// What is wrong behind the data byte of a short response, where a zero
/// and then the terminator must stand; `None` where both are right. `s`
/// begins with the prefix and the opcode.
pub open spec fn byte_payload_fault_spec(s: Seq<u8>) -> Option<ParsedView> {
    if s.len() < 4 {
        Some(ParsedView::Incomplete(1))
    } else if s[3] != 0x00 {
        Some(ParsedView::Invalid)
    } else if s.len() < PACKET_HEADER_SIZE {
        Some(ParsedView::Incomplete(1))
    } else if s[4] != PACKET_TERMINATOR {
        Some(ParsedView::Invalid)
    } else {
        None
    }
}

/// Parses an average time; `s` begins with the prefix and the opcode.
pub open spec fn parse_average_time_spec(s: Seq<u8>) -> ParsedView {
    if s.len() < 3 {
        ParsedView::Incomplete(1)
    } else {
        match byte_payload_fault_spec(s) {
            Some(fault) => fault,
            None => ParsedView::Complete {
                tail: s.subrange(PACKET_HEADER_SIZE as int, s.len() as int),
                response: ResponseView::AverageTime(s[2]),
                checksum_ok: true,
            },
        }
    }
}

/// Parses a baud rate; `s` begins with the prefix and the opcode. The
/// code is looked at last: a wrong zero or terminator is found first.
pub open spec fn parse_baud_rate_spec(s: Seq<u8>) -> ParsedView {
    if s.len() < 3 {
        ParsedView::Incomplete(1)
    } else {
        match byte_payload_fault_spec(s) {
            Some(fault) => fault,
            None => if is_baud_code(s[2]) {
                ParsedView::Complete {
                    tail: s.subrange(PACKET_HEADER_SIZE as int, s.len() as int),
                    response: ResponseView::SerialBaudRate(baud_from_code(s[2])),
                    checksum_ok: true,
                }
            } else {
                ParsedView::Invalid
            },
        }
    }
}

/// Looks for the prefix byte at the head of `s`.
pub open spec fn package_prefix_spec(s: Seq<u8>) -> PrefixMatchView {
    if s.len() == 0 {
        PrefixMatchView::Incomplete(1)
    } else if s[0] == PACKET_PREFIX {
        PrefixMatchView::Matched(s.subrange(1, s.len() as int))
    } else {
        PrefixMatchView::Mismatch
    }
}

/// Parses what follows the prefix of a binary response; `s` begins with
/// the prefix.
pub open spec fn parse_binary_spec(s: Seq<u8>) -> ParsedView {
    if s.len() < 2 {
        ParsedView::Incomplete(1)
    } else if s[1] == OPCODE_SINGLE_READING {
        parse_frame_spec(s)
    } else if s[1] == OPCODE_EXPOSURE_TIME {
        parse_exposure_time_spec(s)
    } else if s[1] == OPCODE_AVERAGE_TIME {
        parse_average_time_spec(s)
    } else if s[1] == OPCODE_SERIAL_BAUD_RATE {
        parse_baud_rate_spec(s)
    } else {
        ParsedView::Invalid
    }
}

/// Parses `s` as a binary response: the prefix, the opcode, and what the
/// opcode asks for.
pub open spec fn package_parser_spec(s: Seq<u8>) -> ParsedView {
    match package_prefix_spec(s) {
        PrefixMatchView::Incomplete(needed) => ParsedView::Incomplete(needed),
        PrefixMatchView::Matched(_) => parse_binary_spec(s),
        PrefixMatchView::Mismatch => ParsedView::Invalid,
    }
}

/// Parses `s` as a version report.
pub open spec fn parse_version_response_spec(s: Seq<u8>) -> ParsedView {
    match parse_version_spec(s) {
        VersionParseView::Complete { tail, details } => ParsedView::Complete {
            tail,
            response: ResponseView::VersionInfo(details),
            checksum_ok: true,
        },
        VersionParseView::Incomplete { needed } => ParsedView::Incomplete(needed),
        VersionParseView::Invalid => ParsedView::Invalid,
    }
}

/// What the parser makes of `s`: nothing yet of no bytes, a binary
/// response where the first byte is the prefix, a version report
/// otherwise.
pub open spec fn parse_spec(s: Seq<u8>) -> ParsedView {
    match package_prefix_spec(s) {
        PrefixMatchView::Incomplete(needed) => ParsedView::Incomplete(needed),
        PrefixMatchView::Matched(_) => parse_binary_spec(s),
        PrefixMatchView::Mismatch => parse_version_response_spec(s),
    }
}

/// Whether a response can begin at index `i` of `s`: the prefix byte
/// stands there, or the whole version tag does.
pub open spec fn starts_response(s: Seq<u8>, i: int) -> bool {
    &&& 0 <= i < s.len()
    &&& (s[i] == PACKET_PREFIX || (i + VERSION_TAG_SIZE <= s.len() && s.subrange(
        i,
        i + VERSION_TAG_SIZE,
    ) == version_tag()))
}

/// The first index at or after `from` at which a response can begin; the
/// length of `s` where there is none.
pub open spec fn align_offset(s: Seq<u8>, from: int) -> int
    decreases s.len() - from,
{
    if from >= s.len() {
        s.len() as int
    } else if starts_response(s, from) {
        from
    } else {
        align_offset(s, from + 1)
    }
}

/// The suffix of `s` from the first index at which a response can begin;
/// `None` where there is no such index.
pub open spec fn align_spec(s: Seq<u8>) -> Option<Seq<u8>> {
    if align_offset(s, 0) < s.len() {
        Some(s.subrange(align_offset(s, 0), s.len() as int))
    } else {
        None
    }
}

/// `align_offset` stays inside `[from, len]`, no response can begin
/// before what it finds, and one can begin at what it finds.
pub proof fn lemma_align_offset(s: Seq<u8>, from: int)
    requires
        0 <= from <= s.len(),
    ensures
        from <= align_offset(s, from) <= s.len(),
        forall|i: int| from <= i < align_offset(s, from) ==> !starts_response(s, i),
        align_offset(s, from) < s.len() ==> starts_response(s, align_offset(s, from)),
    decreases s.len() - from,
{
    if from < s.len() && !starts_response(s, from) {
        lemma_align_offset(s, from + 1);
    }
}

/// An index `at` before which no response can begin, and at which one
/// can or which is the end of the input, is what `align_offset` gives.
pub proof fn lemma_align_offset_is(s: Seq<u8>, from: int, at: int)
    requires
        0 <= from <= at <= s.len(),
        forall|i: int| from <= i < at ==> !starts_response(s, i),
        at < s.len() ==> starts_response(s, at),
    ensures
        align_offset(s, from) == at,
    decreases at - from,
{
    if from < at {
        lemma_align_offset_is(s, from + 1, at);
    }
}

/// What `align_spec` gives begins with a response start, so aligning it
/// again changes nothing.
pub proof fn lemma_align_idempotent(s: Seq<u8>)
    ensures
        align_spec(s) matches Some(suffix) ==> suffix.len() > 0 && starts_response(suffix, 0)
            && align_offset(suffix, 0) == 0 && align_spec(suffix) == Some(suffix),
{
    if let Some(suffix) = align_spec(s) {
        lemma_align_offset(s, 0);
        let k = align_offset(s, 0);
        assert(suffix[0] == s[k]);
        if s[k] != PACKET_PREFIX {
            assert(suffix.subrange(0, VERSION_TAG_SIZE as int) =~= s.subrange(
                k,
                k + VERSION_TAG_SIZE,
            ));
        }
        assert(starts_response(suffix, 0));
        assert(suffix.subrange(0, suffix.len() as int) =~= suffix);
    }
}

/// A response start at the head of `s` is still one at the head of any
/// `t` that begins with `s`.
pub proof fn lemma_start_survives_growth(s: Seq<u8>, t: Seq<u8>)
    requires
        s.len() <= t.len(),
        t.subrange(0, s.len() as int) == s,
        starts_response(s, 0),
    ensures
        starts_response(t, 0),
        align_offset(t, 0) == 0,
        align_spec(t) == Some(t),
{
    assert(t[0] == t.subrange(0, s.len() as int)[0]);
    if s[0] != PACKET_PREFIX {
        assert(t.subrange(0, VERSION_TAG_SIZE as int) =~= s.subrange(0, VERSION_TAG_SIZE as int))
            by {
            assert forall|i: int| 0 <= i < VERSION_TAG_SIZE implies t[i] == s[i] by {
                assert(t.subrange(0, s.len() as int)[i] == t[i]);
            }
        }
    }
    assert(t.subrange(0, t.len() as int) =~= t);
}

/// A whole response is the same response with more bytes behind it, and
/// what is added follows it.
pub proof fn lemma_complete_survives_growth(s: Seq<u8>, e: Seq<u8>)
    requires
        parse_spec(s) is Complete,
    ensures
        parse_spec(s + e) == (ParsedView::Complete {
            tail: parse_spec(s)->tail + e,
            response: parse_spec(s)->response,
            checksum_ok: parse_spec(s)->checksum_ok,
        }),
{
    let t = s + e;
    assert(t[0] == s[0]);
    if s[0] == PACKET_PREFIX {
        assert(t[1] == s[1]);
        assert(t[2] == s[2]);
        assert(t[3] == s[3]);
        assert(t[4] == s[4]);
        assert(t.subrange(PACKET_HEADER_SIZE as int, t.len() as int) =~= s.subrange(
            PACKET_HEADER_SIZE as int,
            s.len() as int,
        ) + e);
        if s[1] == OPCODE_SINGLE_READING {
            let end = PACKET_HEADER_SIZE + FRAME_DATA_SIZE;
            assert(t.subrange(PACKET_HEADER_SIZE as int, end) =~= s.subrange(
                PACKET_HEADER_SIZE as int,
                end,
            ));
            assert(t[end] == s[end]);
            assert(t[end + 1] == s[end + 1]);
            assert(t.subrange(MAX_PACKET_SIZE as int, t.len() as int) =~= s.subrange(
                MAX_PACKET_SIZE as int,
                s.len() as int,
            ) + e);
        }
    } else {
        lemma_version_survives_growth(s, e);
    }
}

/// What begins no response begins none with more bytes behind it.
pub proof fn lemma_invalid_stays_invalid(s: Seq<u8>, e: Seq<u8>)
    requires
        parse_spec(s) is Invalid,
    ensures
        parse_spec(s + e) is Invalid,
{
    let t = s + e;
    assert(t[0] == s[0]);
    if s[0] == PACKET_PREFIX {
        assert(t[1] == s[1]);
        if s.len() >= 3 {
            assert(t[2] == s[2]);
        }
        if s.len() >= 4 {
            assert(t[3] == s[3]);
        }
        if s.len() >= PACKET_HEADER_SIZE {
            assert(t[4] == s[4]);
        }
    } else {
        lemma_invalid_version_stays_invalid(s, e);
    }
}

/// The place at which `align` finds a response to begin stays the first
/// such place when more bytes come behind the input.
pub proof fn lemma_align_survives_growth(s: Seq<u8>, e: Seq<u8>)
    requires
        align_spec(s) is Some,
    ensures
        align_spec(s + e) == Some(align_spec(s)->0 + e),
{
    let t = s + e;
    lemma_align_offset(s, 0);
    let at = align_offset(s, 0);
    assert(t[at] == s[at]);
    if s[at] != PACKET_PREFIX {
        assert(t.subrange(at, at + VERSION_TAG_SIZE) =~= s.subrange(at, at + VERSION_TAG_SIZE));
    }
    assert(starts_response(t, at));
    assert forall|i: int| 0 <= i < at implies !starts_response(t, i) by {
        assert(!starts_response(s, i));
        assert(t[i] == s[i]);
        if i + VERSION_TAG_SIZE <= t.len() && t.subrange(i, i + VERSION_TAG_SIZE)
            == version_tag() {
            if i + VERSION_TAG_SIZE <= s.len() {
                assert(s.subrange(i, i + VERSION_TAG_SIZE) =~= t.subrange(
                    i,
                    i + VERSION_TAG_SIZE,
                ));
            } else {
                // The tag would reach over the place `at`, where the
                // prefix byte or the first byte of a tag stands, and the
                // tag holds neither behind its first byte.
                assert(t.subrange(i, i + VERSION_TAG_SIZE)[at - i] == t[at]);
                if s[at] != PACKET_PREFIX {
                    assert(s.subrange(at, at + VERSION_TAG_SIZE)[0] == s[at]);
                }
            }
        }
    }
    lemma_align_offset_is(t, 0, at);
    assert(t.subrange(at, t.len() as int) =~= s.subrange(at, s.len() as int) + e);
}

/// An incomplete parse asks for one byte at least.
pub proof fn lemma_incomplete_asks_for_bytes(s: Seq<u8>)
    ensures
        parse_spec(s) matches ParsedView::Incomplete(n) ==> n >= 1,
{
    lemma_version_needs_bytes(s);
}

/// The tail of a complete parse is a suffix of the input, and shorter
/// than the input: a response takes at least one byte.
pub proof fn lemma_parse_tail(s: Seq<u8>)
    ensures
        parse_spec(s) matches ParsedView::Complete { tail, .. } ==> tail.len() < s.len() && tail
            == s.subrange(s.len() - tail.len(), s.len() as int),
{
    if let ParsedView::Complete { tail, .. } = parse_spec(s) {
        if s[0] != PACKET_PREFIX {
            lemma_version_tail(s);
        }
    }
}

/// Joins two bytes, the upper one first, into the 16-bit value they
/// spell in big-endian order.
pub fn pair_u8_to_u16(upper: u8, lower: u8) -> (v: u16)
    ensures
        v == be16(upper, lower),
{
    (upper as u16) * 256 + (lower as u16)
}

/// The checksum of one more byte, from the checksum of those before it.
proof fn lemma_checksum_step(s: Seq<u8>, i: int)
    requires
        0 <= i < s.len(),
    ensures
        checksum(s.take(i + 1)) == (checksum(s.take(i)) + s[i]) % 0x1_0000,
{
    assert(s.take(i + 1).drop_last() =~= s.take(i));
    let before = byte_sum(s.take(i)) as int;
    lemma_add_mod_noop(before, s[i] as int, 0x1_0000);
    lemma_small_mod(s[i] as nat, 0x1_0000);
}

/// Computes the additive checksum of `data`: the sum of its bytes, with
/// wrap-around at 16 bits.
pub fn compute_checksum(data: &[u8]) -> (c: u16)
    ensures
        c == checksum(data@),
{
    let mut acc: u16 = 0;
    let mut i: usize = 0;
    while i < data.len()
        invariant
            i <= data@.len(),
            acc == checksum(data@.take(i as int)),
        decreases data@.len() - i,
    {
        proof {
            lemma_checksum_step(data@, i as int);
        }
        let sum: u32 = acc as u32 + data[i] as u32;
        acc = (sum % 0x1_0000) as u16;
        i += 1;
    }
    assert(data@.take(data@.len() as int) =~= data@);
    acc
}

/// Assembles the samples of a frame from the data bytes of its packet,
/// leaving the padding pixels out.
fn read_frame(data: &[u8]) -> (frame: Frame)
    requires
        data@.len() == FRAME_DATA_SIZE,
    ensures
        frame@ == frame_of_data(data@),
{
    let mut frame: Frame = [0u16; FRAME_PIXEL_COUNT];
    let mut i: usize = 0;
    while i < FRAME_PIXEL_COUNT
        invariant
            i <= FRAME_PIXEL_COUNT,
            data@.len() == FRAME_DATA_SIZE,
            forall|j: int|
                0 <= j < i ==> #[trigger] frame@[j] == be16(
                    data@[2 * (FRAME_PIXEL_PREFIX + j)],
                    data@[2 * (FRAME_PIXEL_PREFIX + j) + 1],
                ),
        decreases FRAME_PIXEL_COUNT - i,
    {
        let at: usize = 2 * (FRAME_PIXEL_PREFIX + i);
        frame[i] = pair_u8_to_u16(data[at], data[at + 1]);
        i += 1;
    }
    assert(frame@ =~= frame_of_data(data@));
    frame
}

/// Parses a pixel frame: the scan size, which is the size of the data or
/// zero, a zero byte, the samples and the checksum.
fn single_frame_parser(input: &[u8]) -> (r: Parsed<'_>)
    requires
        input@.len() >= 2,
    ensures
        r@ == parse_frame_spec(input@),
{
    let len = input.len();
    if len < 4 {
        return Parsed::Incomplete(4 - len);
    }
    let scan_size = pair_u8_to_u16(input[2], input[3]);
    if scan_size as usize != FRAME_DATA_SIZE && scan_size != 0 {
        return Parsed::Invalid;
    }
    if len < PACKET_HEADER_SIZE {
        return Parsed::Incomplete(1);
    }
    if input[4] != 0x00 {
        return Parsed::Invalid;
    }
    if len < MAX_PACKET_SIZE {
        return Parsed::Incomplete(MAX_PACKET_SIZE - len);
    }
    let data = slice_subrange(input, PACKET_HEADER_SIZE, PACKET_HEADER_SIZE + FRAME_DATA_SIZE);
    let crc = compute_checksum(data);
    let frame = read_frame(data);
    let expected_crc = pair_u8_to_u16(
        input[PACKET_HEADER_SIZE + FRAME_DATA_SIZE],
        input[PACKET_HEADER_SIZE + FRAME_DATA_SIZE + 1],
    );
    Parsed::Complete {
        tail: slice_subrange(input, MAX_PACKET_SIZE, len),
        response: Response::SingleReading(frame),
        checksum_ok: crc == expected_crc,
    }
}

/// Parses an exposure time: sixteen bits, then the terminator.
fn exposure_time_parser(input: &[u8]) -> (r: Parsed<'_>)
    requires
        input@.len() >= 2,
    ensures
        r@ == parse_exposure_time_spec(input@),
{
    let len = input.len();
    if len < 4 {
        return Parsed::Incomplete(4 - len);
    }
    let exposure_time = pair_u8_to_u16(input[2], input[3]);
    if len < PACKET_HEADER_SIZE {
        return Parsed::Incomplete(1);
    }
    if input[4] != PACKET_TERMINATOR {
        return Parsed::Invalid;
    }
    Parsed::Complete {
        tail: slice_subrange(input, PACKET_HEADER_SIZE, len),
        response: Response::ExposureTime(exposure_time),
        checksum_ok: true,
    }
}

/// Checks the zero and the terminator behind the data byte of a short
/// response. Gives the outcome where one of them is missing or wrong, and
/// `None` where both are right.
fn byte_payload_fault(input: &[u8]) -> (r: Option<Parsed<'_>>)
    requires
        input@.len() >= 3,
    ensures
        r is Some <==> byte_payload_fault_spec(input@) is Some,
        r matches Some(fault) ==> fault@ == byte_payload_fault_spec(input@)->0,
{
    let len = input.len();
    if len < 4 {
        return Some(Parsed::Incomplete(1));
    }
    if input[3] != 0x00 {
        return Some(Parsed::Invalid);
    }
    if len < PACKET_HEADER_SIZE {
        return Some(Parsed::Incomplete(1));
    }
    if input[4] != PACKET_TERMINATOR {
        return Some(Parsed::Invalid);
    }
    None
}

/// Parses an average time: one byte, a zero, the terminator.
fn average_time_parser(input: &[u8]) -> (r: Parsed<'_>)
    requires
        input@.len() >= 2,
    ensures
        r@ == parse_average_time_spec(input@),
{
    if input.len() < 3 {
        return Parsed::Incomplete(1);
    }
    if let Some(fault) = byte_payload_fault(input) {
        return fault;
    }
    Parsed::Complete {
        tail: slice_subrange(input, PACKET_HEADER_SIZE, input.len()),
        response: Response::AverageTime(input[2]),
        checksum_ok: true,
    }
}

/// Parses a baud rate: its code, a zero, the terminator. A code that
/// names no rate makes the response invalid.
fn serial_baud_rate_parser(input: &[u8]) -> (r: Parsed<'_>)
    requires
        input@.len() >= 2,
    ensures
        r@ == parse_baud_rate_spec(input@),
{
    if input.len() < 3 {
        return Parsed::Incomplete(1);
    }
    if let Some(fault) = byte_payload_fault(input) {
        return fault;
    }
    match BaudRate::try_from_code(input[2]) {
        Ok(baud_rate) => Parsed::Complete {
            tail: slice_subrange(input, PACKET_HEADER_SIZE, input.len()),
            response: Response::SerialBaudRate(baud_rate),
            checksum_ok: true,
        },
        Err(_) => Parsed::Invalid,
    }
}

/// Looks for the prefix byte that opens every binary response.
pub fn package_prefix(input: &[u8]) -> (r: PrefixMatch<'_>)
    ensures
        r@ == package_prefix_spec(input@),
{
    if input.len() == 0 {
        PrefixMatch::Incomplete(1)
    } else if input[0] == PACKET_PREFIX {
        PrefixMatch::Matched(slice_subrange(input, 1, input.len()))
    } else {
        PrefixMatch::Mismatch
    }
}

/// Parses what follows the prefix of a binary response: the opcode, and
/// what the opcode asks for.
fn binary_response(input: &[u8]) -> (r: Parsed<'_>)
    requires
        input@.len() >= 1,
        input@[0] == PACKET_PREFIX,
    ensures
        r@ == parse_binary_spec(input@),
{
    if input.len() < 2 {
        return Parsed::Incomplete(1);
    }
    let opcode = input[1];
    if opcode == OPCODE_SINGLE_READING {
        single_frame_parser(input)
    } else if opcode == OPCODE_EXPOSURE_TIME {
        exposure_time_parser(input)
    } else if opcode == OPCODE_AVERAGE_TIME {
        average_time_parser(input)
    } else if opcode == OPCODE_SERIAL_BAUD_RATE {
        serial_baud_rate_parser(input)
    } else {
        Parsed::Invalid
    }
}

/// Parses a binary response: the prefix, the opcode, and what the opcode
/// asks for.
pub fn package_parser(input: &[u8]) -> (r: Parsed<'_>)
    ensures
        r@ == package_parser_spec(input@),
{
    match package_prefix(input) {
        PrefixMatch::Incomplete(needed) => Parsed::Incomplete(needed),
        PrefixMatch::Matched(_) => binary_response(input),
        PrefixMatch::Mismatch => Parsed::Invalid,
    }
}

/// Takes aligned input and parses it either as a binary response or, where
/// it does not begin with the prefix, as the plain text of a version
/// report.
pub fn parse_response(input: &[u8]) -> (r: Parsed<'_>)
    ensures
        r@ == parse_spec(input@),
        r matches Parsed::Incomplete(needed) ==> needed >= 1,
{
    proof {
        lemma_incomplete_asks_for_bytes(input@);
    }
    match package_prefix(input) {
        PrefixMatch::Incomplete(needed) => {
            return Parsed::Incomplete(needed);
        },
        PrefixMatch::Matched(_) => {
            return binary_response(input);
        },
        PrefixMatch::Mismatch => {},
    }
    match version_details_parser(input) {
        VersionParse::Complete { tail, details } => Parsed::Complete {
            tail,
            response: Response::VersionInfo(details),
            checksum_ok: true,
        },
        VersionParse::Incomplete { needed } => Parsed::Incomplete(needed),
        VersionParse::Invalid => Parsed::Invalid,
    }
}

/// Whether a response can begin at index `at` of `input`.
fn response_starts_at(input: &[u8], at: usize) -> (b: bool)
    requires
        at < input@.len(),
    ensures
        b == starts_response(input@, at as int),
{
    let candidate = slice_subrange(input, at, input.len());
    if let PrefixMatch::Matched(_) = package_prefix(candidate) {
        return true;
    }
    let tagged = matches!(version_details_prefix(candidate), PrefixMatch::Matched(_));
    proof {
        if at + VERSION_TAG_SIZE <= input@.len() {
            let head = input@.subrange(at as int, at + VERSION_TAG_SIZE);
            if tagged {
                assert(head =~= version_tag());
            } else if head == version_tag() {
                assert forall|i: int| 0 <= i < VERSION_TAG_SIZE implies candidate@[i]
                    == version_tag()[i] by {
                    assert(candidate@[i] == head[i]);
                }
            }
        }
    }
    tagged
}

/// Takes a byte slice and drops bytes until the first place at which a
/// response can begin: the prefix byte or the whole version tag. Gives
/// `None` where the slice holds no such place.
pub fn align_response(input: &[u8]) -> (r: Option<&[u8]>)
    ensures
        r is Some <==> align_spec(input@) is Some,
        r matches Some(aligned) ==> aligned@ == align_spec(input@)->0,
{
    let mut i: usize = 0;
    while i < input.len()
        invariant
            i <= input@.len(),
            forall|j: int| 0 <= j < i ==> !starts_response(input@, j),
        decreases input@.len() - i,
    {
        if response_starts_at(input, i) {
            proof {
                lemma_align_offset_is(input@, 0, i as int);
            }
            return Some(slice_subrange(input, i, input.len()));
        }
        i += 1;
    }
    proof {
        lemma_align_offset_is(input@, 0, i as int);
    }
    None
}

} // verus!
