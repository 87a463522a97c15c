//! The offline decoder: a whole sequence of bytes, as it was recorded
//! from a sensor, is decoded into the responses it holds. The bytes may
//! be given as hexadecimal text.

use crate::error::Error;
use crate::parser::{
    align_response, align_spec, lemma_parse_tail, parse_response, parse_spec, Parsed, ParsedView,
};
use crate::response::{Response, ResponseView};
use vstd::prelude::*;
use vstd::string::*;

verus! {

/// The value of a hexadecimal digit in ASCII, of either case.
pub open spec fn hex_value(c: u8) -> Option<u8> {
    if 0x30 <= c <= 0x39 {
        Some((c - 0x30) as u8)
    } else if 0x41 <= c <= 0x46 {
        Some((c - 0x41 + 10) as u8)
    } else if 0x61 <= c <= 0x66 {
        Some((c - 0x61 + 10) as u8)
    } else {
        None
    }
}

/// A space or a tab.
pub open spec fn is_blank(c: u8) -> bool {
    c == 0x20 || c == 0x09
}

/// The bytes that hexadecimal text spells from index `from` on, behind
/// the bytes `done` that it spelled before: blanks are passed over, two
/// digits side by side spell a byte, anything else spoils the text, and
/// so does a text that spells no byte at all.
pub open spec fn hex_bytes_from(text: Seq<u8>, from: int, done: Seq<u8>) -> Option<Seq<u8>>
    decreases text.len() - from,
{
    if from >= text.len() {
        if done.len() > 0 {
            Some(done)
        } else {
            None
        }
    } else if is_blank(text[from]) {
        hex_bytes_from(text, from + 1, done)
    } else if from + 1 < text.len() && hex_value(text[from]) is Some && hex_value(
        text[from + 1],
    ) is Some {
        hex_bytes_from(
            text,
            from + 2,
            done.push((hex_value(text[from])->0 * 16 + hex_value(text[from + 1])->0) as u8),
        )
    } else {
        None
    }
}

/// The bytes that hexadecimal text spells: pairs of digits, with any
/// number of spaces and tabs before, between and behind the pairs.
pub open spec fn hex_bytes(text: Seq<u8>) -> Option<Seq<u8>> {
    hex_bytes_from(text, 0, Seq::empty())
}

/// The views of responses, in their order.
pub open spec fn response_views(responses: Seq<Response>) -> Seq<ResponseView> {
    Seq::new(responses.len(), |i: int| responses[i]@)
}

/// The responses that stand one behind the other at the head of `bytes`.
/// Bytes that are left behind the last response are passed over where
/// they are a valid beginning of another response, and spoil the whole
/// where they are not.
pub open spec fn decode_all(bytes: Seq<u8>) -> Option<Seq<ResponseView>>
    decreases bytes.len(),
    via decode_all_decreases
{
    match parse_spec(bytes) {
        ParsedView::Complete { tail, response, .. } => match decode_all(tail) {
            Some(rest) => Some(seq![response] + rest),
            None => None,
        },
        ParsedView::Incomplete(_) => Some(Seq::empty()),
        ParsedView::Invalid => None,
    }
}

#[via_fn]
proof fn decode_all_decreases(bytes: Seq<u8>) {
    lemma_parse_tail(bytes);
}

/// The responses in a recording: what `decode_all` makes of the bytes
/// from the first place at which a response can begin. `None` where
/// there is no such place.
pub open spec fn decode_recording(bytes: Seq<u8>) -> Option<Seq<ResponseView>> {
    match align_spec(bytes) {
        Some(aligned) => decode_all(aligned),
        None => None,
    }
}

/// The value of one hexadecimal digit in ASCII.
fn hex_digit_value(c: u8) -> (v: Option<u8>)
    ensures
        v == hex_value(c),
        v matches Some(d) ==> d < 16,
{
    if 0x30 <= c && c <= 0x39 {
        Some(c - 0x30)
    } else if 0x41 <= c && c <= 0x46 {
        Some(c - 0x41 + 10)
    } else if 0x61 <= c && c <= 0x66 {
        Some(c - 0x61 + 10)
    } else {
        None
    }
}

/// Decodes a pair of chars formatted as hex into a byte, the high digit
/// first. For example "FF" -> 255.
pub fn hex_byte(high: u8, low: u8) -> (v: Option<u8>)
    ensures
        v is Some <==> hex_value(high) is Some && hex_value(low) is Some,
        v matches Some(b) ==> b == hex_value(high)->0 * 16 + hex_value(low)->0,
{
    match (hex_digit_value(high), hex_digit_value(low)) {
        (Some(h), Some(l)) => Some(h * 16 + l),
        _ => None,
    }
}

/// Reads hexadecimal text: pairs of digits of either case, with any
/// number of spaces and tabs before, between and behind the pairs. Gives
/// `None` for a text that holds anything else, a digit without its
/// partner, or no pair at all.
pub fn parse_hex_str(input: &str) -> (r: Option<Vec<u8>>)
    ensures
        r is Some <==> hex_bytes(input.spec_bytes()) is Some,
        r matches Some(data) ==> data@ == hex_bytes(input.spec_bytes())->0,
{
    let text = input.as_bytes();
    let mut data: Vec<u8> = Vec::new();
    let mut i: usize = 0;
    while i < text.len()
        invariant
            i <= text@.len(),
            text@ == input.spec_bytes(),
            hex_bytes_from(text@, i as int, data@) == hex_bytes(text@),
        decreases text@.len() - i,
    {
        let c = text[i];
        if c == 0x20 || c == 0x09 {
            i += 1;
        } else if text.len() - i < 2 {
            return None;
        } else {
            match hex_byte(c, text[i + 1]) {
                Some(b) => {
                    data.push(b);
                    i += 2;
                },
                None => {
                    return None;
                },
            }
        }
    }
    if data.len() > 0 {
        Some(data)
    } else {
        None
    }
}

/// Decodes the responses that stand one behind the other in `data`, from
/// its first byte on. Frames are handed out whatever their checksum.
/// Bytes behind the last response that begin no response give
/// `InvalidData`.
pub fn decode_responses(data: &[u8]) -> (r: Result<Vec<Response>, Error>)
    ensures
        r is Ok <==> decode_all(data@) is Some,
        r matches Ok(responses) ==> response_views(responses@) == decode_all(data@)->0,
        r matches Err(e) ==> e is InvalidData,
{
    let mut rest: &[u8] = data;
    let mut parsed_responses: Vec<Response> = Vec::new();
    loop
        invariant
            match decode_all(rest@) {
                Some(more) => decode_all(data@) == Some(response_views(parsed_responses@) + more),
                None => decode_all(data@) is None,
            },
        decreases rest@.len(),
    {
        proof {
            lemma_parse_tail(rest@);
        }
        let ghost before = response_views(parsed_responses@);
        match parse_response(rest) {
            Parsed::Complete { tail, response, .. } => {
                proof {
                    if let Some(more) = decode_all(tail@) {
                        assert(before + (seq![response@] + more) =~= before.push(response@) + more);
                    }
                }
                parsed_responses.push(response);
                assert(response_views(parsed_responses@) =~= before.push(response@));
                rest = tail;
            },
            Parsed::Incomplete(_) => {
                assert(before + Seq::<ResponseView>::empty() =~= before);
                return Ok(parsed_responses);
            },
            Parsed::Invalid => {
                return Err(Error::InvalidData);
            },
        }
    }
}

/// Decodes a recording given as hexadecimal text: the text is read, the
/// bytes in front of the first place at which a response can begin are
/// dropped, and the responses behind them are decoded. Text that is no
/// hexadecimal text, bytes among which no response can begin, and bytes
/// behind a response that begin no response give `InvalidData`.
pub fn decode_from_string(input: &str) -> (r: Result<Vec<Response>, Error>)
    ensures
        r is Ok <==> hex_bytes(input.spec_bytes()) is Some && decode_recording(
            hex_bytes(input.spec_bytes())->0,
        ) is Some,
        r matches Ok(responses) ==> response_views(responses@) == decode_recording(
            hex_bytes(input.spec_bytes())->0,
        )->0,
        r matches Err(e) ==> e is InvalidData,
{
    let data = match parse_hex_str(input) {
        Some(data) => data,
        None => {
            return Err(Error::InvalidData);
        },
    };
    let aligned = match align_response(data.as_slice()) {
        Some(aligned) => aligned,
        None => {
            return Err(Error::InvalidData);
        },
    };
    decode_responses(aligned)
}

} // verus!
