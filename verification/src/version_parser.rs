//! The ASCII version report: the tag `HdInfo:`, three words that each end
//! in a run of separators, and a serial number of twelve bytes with
//! nothing behind it.

use crate::prefix::{PrefixMatch, PrefixMatchView};
use crate::version_details::{
    ShortText, VersionDetails, VersionDetailsView, VERSION_FIELD_CAPACITY,
};
use vstd::prelude::*;
use vstd::slice::*;
use vstd::string::*;
use vstd::utf8::*;

verus! {

/// Bytes of the tag that opens a version report.
pub const VERSION_TAG_SIZE: usize = 7;

/// Bytes of the serial number, the last field of a version report.
pub const SERIAL_NUMBER_SIZE: usize = 12;

/// The tag that opens a version report: `HdInfo:` in ASCII.
pub open spec fn version_tag() -> Seq<u8> {
    seq![0x48u8, 0x64u8, 0x49u8, 0x6eu8, 0x66u8, 0x6fu8, 0x3au8]
}

/// Byte `i` of the tag.
fn version_tag_byte(i: usize) -> (b: u8)
    requires
        i < VERSION_TAG_SIZE,
    ensures
        b == version_tag()[i as int],
{
    if i == 0 {
        0x48
    } else if i == 1 {
        0x64
    } else if i == 2 {
        0x49
    } else if i == 3 {
        0x6e
    } else if i == 4 {
        0x66
    } else if i == 5 {
        0x6f
    } else {
        0x3a
    }
}

/// A space or a comma.
pub open spec fn is_separator_spec(c: u8) -> bool {
    c == 0x20 || c == 0x2c
}

/// Whether `c` parts two fields of a version report: a space or a comma.
pub fn is_separator(c: u8) -> (b: bool)
    ensures
        b == is_separator_spec(c),
{
    c == 0x20 || c == 0x2c
}

/// The first index at or after `from` whose byte is a separator (where
/// `sep`) or is none (where `!sep`); the length of `s` where there is no
/// such index.
pub open spec fn find_boundary(s: Seq<u8>, from: int, sep: bool) -> int
    decreases s.len() - from,
{
    if from >= s.len() {
        s.len() as int
    } else if is_separator_spec(s[from]) == sep {
        from
    } else {
        find_boundary(s, from + 1, sep)
    }
}

/// A word of a version report and the separators behind it.
pub enum WordView {
    /// The word is `s[start..end]`, and the next field starts at `next`.
    Word { end: int, next: int },
    /// The input ends inside the word or inside its separators.
    Incomplete,
    /// The word is empty, longer than a field may be, or no UTF-8.
    Invalid,
}

/// The word that starts at `start`.
pub open spec fn word_at(s: Seq<u8>, start: int) -> WordView {
    let end = find_boundary(s, start, true);
    if end - start > VERSION_FIELD_CAPACITY {
        WordView::Invalid
    } else if end == s.len() {
        WordView::Incomplete
    } else if end == start {
        WordView::Invalid
    } else if !valid_utf8(s.subrange(start, end)) {
        WordView::Invalid
    } else {
        let next = find_boundary(s, end, false);
        if next == s.len() {
            WordView::Incomplete
        } else {
            WordView::Word { end, next }
        }
    }
}

/// What the bytes of a version report hold.
pub enum VersionParseView {
    /// A whole report, and what follows it in the input.
    Complete { tail: Seq<u8>, details: VersionDetailsView },
    /// A valid beginning that lacks at least `needed` bytes.
    Incomplete { needed: int },
    /// No version report.
    Invalid,
}

/// The first `n` bytes of `s` are the first `n` bytes of the tag.
pub open spec fn matches_tag(s: Seq<u8>, n: int) -> bool {
    forall|i: int| 0 <= i < n ==> s[i] == version_tag()[i]
}

/// Looks for the version tag at the head of `s`. The bytes that `s` has
/// are compared first: a byte that differs from the tag is a mismatch
/// even where `s` is shorter than the tag.
pub open spec fn version_prefix_spec(s: Seq<u8>) -> PrefixMatchView {
    let shared: int = if s.len() < VERSION_TAG_SIZE {
        s.len() as int
    } else {
        VERSION_TAG_SIZE as int
    };
    if !matches_tag(s, shared) {
        PrefixMatchView::Mismatch
    } else if s.len() < VERSION_TAG_SIZE {
        PrefixMatchView::Incomplete(VERSION_TAG_SIZE - s.len())
    } else {
        PrefixMatchView::Matched(s.subrange(VERSION_TAG_SIZE as int, s.len() as int))
    }
}

/// The serial number that starts at `start`, behind the three words
/// `s[7..end1]`, `s[start2..end2]` and `s[start3..end3]`: twelve bytes of
/// UTF-8, with which the report is complete.
pub open spec fn parse_serial_spec(
    s: Seq<u8>,
    end1: int,
    start2: int,
    end2: int,
    start3: int,
    end3: int,
    start: int,
) -> VersionParseView {
    if s.len() - start < SERIAL_NUMBER_SIZE {
        VersionParseView::Incomplete { needed: SERIAL_NUMBER_SIZE - (s.len() - start) }
    } else if !valid_utf8(s.subrange(start, start + SERIAL_NUMBER_SIZE)) {
        VersionParseView::Invalid
    } else {
        VersionParseView::Complete {
            tail: s.subrange(start + SERIAL_NUMBER_SIZE, s.len() as int),
            details: VersionDetailsView {
                hardware_version: decode_utf8(s.subrange(VERSION_TAG_SIZE as int, end1)),
                sensor_type: decode_utf8(s.subrange(start2, end2)),
                firmware_version: decode_utf8(s.subrange(start3, end3)),
                serial_number: decode_utf8(s.subrange(start, start + SERIAL_NUMBER_SIZE)),
            },
        }
    }
}

/// Parses `s` as a version report.
pub open spec fn parse_version_spec(s: Seq<u8>) -> VersionParseView {
    match version_prefix_spec(s) {
        PrefixMatchView::Mismatch => VersionParseView::Invalid,
        PrefixMatchView::Incomplete(needed) => VersionParseView::Incomplete { needed },
        PrefixMatchView::Matched(_) => match word_at(s, VERSION_TAG_SIZE as int) {
            WordView::Invalid => VersionParseView::Invalid,
            WordView::Incomplete => VersionParseView::Incomplete { needed: 1 },
            WordView::Word { end: end1, next: start2 } => match word_at(s, start2) {
                WordView::Invalid => VersionParseView::Invalid,
                WordView::Incomplete => VersionParseView::Incomplete { needed: 1 },
                WordView::Word { end: end2, next: start3 } => match word_at(s, start3) {
                    WordView::Invalid => VersionParseView::Invalid,
                    WordView::Incomplete => VersionParseView::Incomplete { needed: 1 },
                    WordView::Word { end: end3, next: start4 } => parse_serial_spec(
                        s,
                        end1,
                        start2,
                        end2,
                        start3,
                        end3,
                        start4,
                    ),
                },
            },
        },
    }
}

/// `find_boundary` stays inside `[from, len]`, nothing before what it
/// finds is a boundary, and what it finds is one.
pub proof fn lemma_find_boundary(s: Seq<u8>, from: int, sep: bool)
    requires
        0 <= from <= s.len(),
    ensures
        from <= find_boundary(s, from, sep) <= s.len(),
        forall|i: int|
            from <= i < find_boundary(s, from, sep) ==> is_separator_spec(#[trigger] s[i]) != sep,
        find_boundary(s, from, sep) < s.len() ==> is_separator_spec(
            s[find_boundary(s, from, sep)],
        ) == sep,
    decreases s.len() - from,
{
    if from < s.len() && is_separator_spec(s[from]) != sep {
        lemma_find_boundary(s, from + 1, sep);
    }
}

/// An index `at` that no boundary precedes, and that is a boundary or the
/// end of the input, is what `find_boundary` gives.
pub proof fn lemma_find_boundary_is(s: Seq<u8>, from: int, sep: bool, at: int)
    requires
        0 <= from <= at <= s.len(),
        forall|i: int| from <= i < at ==> is_separator_spec(#[trigger] s[i]) != sep,
        at < s.len() ==> is_separator_spec(s[at]) == sep,
    ensures
        find_boundary(s, from, sep) == at,
    decreases at - from,
{
    if from < at {
        lemma_find_boundary_is(s, from + 1, sep, at);
    }
}

/// No boundary in `[from, upto)` puts the first boundary at `upto` or
/// later.
pub proof fn lemma_find_boundary_lower(s: Seq<u8>, from: int, sep: bool, upto: int)
    requires
        0 <= from <= upto <= s.len(),
        forall|i: int| from <= i < upto ==> is_separator_spec(#[trigger] s[i]) != sep,
    ensures
        find_boundary(s, from, sep) >= upto,
    decreases upto - from,
{
    if from < upto {
        assert(is_separator_spec(s[from]) != sep);
        lemma_find_boundary_lower(s, from + 1, sep, upto);
    } else {
        lemma_find_boundary(s, from, sep);
    }
}

/// A word lies inside the input, is not empty, and separators stand
/// between its end and the field that follows.
pub proof fn lemma_word_at(s: Seq<u8>, start: int)
    requires
        0 <= start <= s.len(),
    ensures
        word_at(s, start) matches WordView::Word { end, next } ==> start < end < next < s.len()
            && end - start <= VERSION_FIELD_CAPACITY && end == find_boundary(s, start, true)
            && next == find_boundary(s, end, false) && valid_utf8(s.subrange(start, end)),
{
    lemma_find_boundary(s, start, true);
    let end = find_boundary(s, start, true);
    if end < s.len() {
        lemma_find_boundary(s, end, false);
    }
}

/// The tail of a complete version report is a suffix of the input, and
/// shorter than the input.
pub proof fn lemma_version_tail(s: Seq<u8>)
    ensures
        parse_version_spec(s) matches VersionParseView::Complete { tail, .. } ==> tail.len()
            < s.len() && tail == s.subrange(s.len() - tail.len(), s.len() as int),
{
    if let VersionParseView::Complete { tail, .. } = parse_version_spec(s) {
        lemma_word_at(s, VERSION_TAG_SIZE as int);
        let start2 = word_at(s, VERSION_TAG_SIZE as int)->next;
        lemma_word_at(s, start2);
        let start3 = word_at(s, start2)->next;
        lemma_word_at(s, start3);
    }
}

/// A word that is whole in `s`, separators and all, is the same word in
/// every input that begins with `s`.
pub proof fn lemma_word_survives_growth(s: Seq<u8>, e: Seq<u8>, start: int)
    requires
        0 <= start <= s.len(),
        word_at(s, start) is Word,
    ensures
        word_at(s + e, start) == word_at(s, start),
{
    let t = s + e;
    lemma_word_at(s, start);
    lemma_find_boundary(s, start, true);
    let end = find_boundary(s, start, true);
    lemma_find_boundary(s, end, false);
    let next = find_boundary(s, end, false);
    assert forall|i: int| start <= i < end implies !is_separator_spec(#[trigger] t[i]) by {
        assert(t[i] == s[i]);
    }
    assert(t[end] == s[end]);
    lemma_find_boundary_is(t, start, true, end);
    assert forall|i: int| end <= i < next implies is_separator_spec(#[trigger] t[i]) by {
        assert(t[i] == s[i]);
    }
    assert(t[next] == s[next]);
    lemma_find_boundary_is(t, end, false, next);
    assert(t.subrange(start, end) =~= s.subrange(start, end));
}

/// A word that is invalid in `s` is invalid in every input that begins
/// with `s`: more bytes make it no shorter, fill no empty word, and
/// change no byte that is no UTF-8.
pub proof fn lemma_invalid_word_stays_invalid(s: Seq<u8>, e: Seq<u8>, start: int)
    requires
        0 <= start <= s.len(),
        word_at(s, start) is Invalid,
    ensures
        word_at(s + e, start) is Invalid,
{
    let t = s + e;
    lemma_find_boundary(s, start, true);
    lemma_find_boundary(t, start, true);
    let end = find_boundary(s, start, true);
    assert forall|i: int| start <= i < end implies !is_separator_spec(#[trigger] t[i]) by {
        assert(t[i] == s[i]);
    }
    if end < s.len() {
        assert(t[end] == s[end]);
        lemma_find_boundary_is(t, start, true, end);
        assert(t.subrange(start, end) =~= s.subrange(start, end));
    } else {
        lemma_find_boundary_lower(t, start, true, end);
    }
}

/// What is no version report is none in any input that begins with it.
pub proof fn lemma_invalid_version_stays_invalid(s: Seq<u8>, e: Seq<u8>)
    requires
        parse_version_spec(s) is Invalid,
    ensures
        parse_version_spec(s + e) is Invalid,
{
    let t = s + e;
    let shared: int = if s.len() < VERSION_TAG_SIZE {
        s.len() as int
    } else {
        VERSION_TAG_SIZE as int
    };
    if !matches_tag(s, shared) {
        let i = choose|i: int| 0 <= i < shared && s[i] != version_tag()[i];
        assert(t[i] == s[i]);
    } else {
        assert(s.len() >= VERSION_TAG_SIZE);
        assert(matches_tag(t, VERSION_TAG_SIZE as int)) by {
            assert forall|i: int| 0 <= i < VERSION_TAG_SIZE implies t[i] == version_tag()[i] by {
                assert(t[i] == s[i]);
            }
        }
        let first = VERSION_TAG_SIZE as int;
        lemma_word_at(s, first);
        match word_at(s, first) {
            WordView::Invalid => {
                lemma_invalid_word_stays_invalid(s, e, first);
            },
            WordView::Incomplete => {},
            WordView::Word { next: second, .. } => {
                lemma_word_survives_growth(s, e, first);
                lemma_word_at(s, second);
                match word_at(s, second) {
                    WordView::Invalid => {
                        lemma_invalid_word_stays_invalid(s, e, second);
                    },
                    WordView::Incomplete => {},
                    WordView::Word { next: third, .. } => {
                        lemma_word_survives_growth(s, e, second);
                        lemma_word_at(s, third);
                        match word_at(s, third) {
                            WordView::Invalid => {
                                lemma_invalid_word_stays_invalid(s, e, third);
                            },
                            WordView::Incomplete => {},
                            WordView::Word { next: serial, .. } => {
                                lemma_word_survives_growth(s, e, third);
                                assert(t.subrange(serial, serial + SERIAL_NUMBER_SIZE)
                                    =~= s.subrange(serial, serial + SERIAL_NUMBER_SIZE));
                            },
                        }
                    },
                }
            },
        }
    }
}

/// A whole version report is the same report in any input that begins
/// with it, and what is added follows it.
pub proof fn lemma_version_survives_growth(s: Seq<u8>, e: Seq<u8>)
    requires
        parse_version_spec(s) is Complete,
    ensures
        parse_version_spec(s + e) == (VersionParseView::Complete {
            tail: parse_version_spec(s)->tail + e,
            details: parse_version_spec(s)->details,
        }),
{
    let t = s + e;
    assert(matches_tag(t, VERSION_TAG_SIZE as int)) by {
        assert forall|i: int| 0 <= i < VERSION_TAG_SIZE implies t[i] == version_tag()[i] by {
            assert(t[i] == s[i]);
        }
    }
    let first = VERSION_TAG_SIZE as int;
    lemma_word_at(s, first);
    lemma_word_survives_growth(s, e, first);
    let end1 = word_at(s, first)->end;
    let second = word_at(s, first)->next;
    lemma_word_at(s, second);
    lemma_word_survives_growth(s, e, second);
    let end2 = word_at(s, second)->end;
    let third = word_at(s, second)->next;
    lemma_word_at(s, third);
    lemma_word_survives_growth(s, e, third);
    let end3 = word_at(s, third)->end;
    let serial = word_at(s, third)->next;
    assert(t.subrange(first, end1) =~= s.subrange(first, end1));
    assert(t.subrange(second, end2) =~= s.subrange(second, end2));
    assert(t.subrange(third, end3) =~= s.subrange(third, end3));
    assert(t.subrange(serial, serial + SERIAL_NUMBER_SIZE) =~= s.subrange(
        serial,
        serial + SERIAL_NUMBER_SIZE,
    ));
    assert(t.subrange(serial + SERIAL_NUMBER_SIZE, t.len() as int) =~= s.subrange(
        serial + SERIAL_NUMBER_SIZE,
        s.len() as int,
    ) + e);
}

/// An incomplete version report asks for one byte at least.
pub proof fn lemma_version_needs_bytes(s: Seq<u8>)
    ensures
        parse_version_spec(s) matches VersionParseView::Incomplete { needed } ==> needed >= 1,
{
}

/// A word as the parser found it.
#[derive(PartialEq, Eq, Debug)]
pub enum Word {
    /// The word ends in front of index `end` of the input, the next field
    /// starts at index `next`, and `text` is what the word says.
    Word { text: ShortText, end: usize, next: usize },
    /// The input ends inside the word or inside its separators.
    Incomplete,
    /// The word is empty, longer than a field may be, or no UTF-8.
    Invalid,
}

impl View for Word {
    type V = WordView;

    open spec fn view(&self) -> WordView {
        match self {
            Word::Word { end, next, .. } => WordView::Word {
                end: *end as int,
                next: *next as int,
            },
            Word::Incomplete => WordView::Incomplete,
            Word::Invalid => WordView::Invalid,
        }
    }
}

/// `core::str::from_utf8`: succeeds exactly on valid UTF-8, and the
/// string slice it gives is made of the bytes it was given.
#[verifier::external_body]
fn str_from_utf8(bytes: &[u8]) -> (r: Option<&str>)
    ensures
        r is Some <==> valid_utf8(bytes@),
        r matches Some(s) ==> s.spec_bytes() == bytes@,
{
    match core::str::from_utf8(bytes) {
        Ok(text) => Some(text),
        Err(_) => None,
    }
}

/// Reads `bytes` as UTF-8 text.
pub fn text_of(bytes: &[u8]) -> (r: Option<&str>)
    ensures
        r is Some <==> valid_utf8(bytes@),
        r matches Some(s) ==> s@ == decode_utf8(bytes@) && encode_utf8(s@) == bytes@,
{
    let r = str_from_utf8(bytes);
    proof {
        if let Some(s) = r {
            encode_utf8_decode_utf8(s@);
        }
    }
    r
}

/// Reads `bytes` as the text of one field of a version report: UTF-8 of
/// no more bytes than a field holds.
pub fn field_of(bytes: &[u8]) -> (r: Option<ShortText>)
    ensures
        r is Some <==> valid_utf8(bytes@) && bytes@.len() <= VERSION_FIELD_CAPACITY,
        r matches Some(field) ==> field@ == decode_utf8(bytes@),
{
    match text_of(bytes) {
        Some(text) => ShortText::try_from_str(text),
        None => None,
    }
}

/// Finds the word that starts at `start`, and where the next field
/// starts.
pub fn scan_word(input: &[u8], start: usize) -> (w: Word)
    requires
        start <= input@.len(),
    ensures
        w@ == word_at(input@, start as int),
        w matches Word::Word { text, end, next } ==> start < end < next < input@.len() && text@
            == decode_utf8(input@.subrange(start as int, end as int)),
{
    let len = input.len();
    let mut end: usize = start;
    while end < len && !is_separator(input[end]) && end - start <= VERSION_FIELD_CAPACITY
        invariant
            start <= end <= len,
            len == input@.len(),
            end - start <= VERSION_FIELD_CAPACITY + 1,
            forall|i: int| start <= i < end ==> !is_separator_spec(#[trigger] input@[i]),
        decreases len - end,
    {
        end += 1;
    }
    proof {
        lemma_find_boundary(input@, start as int, true);
        if end - start > VERSION_FIELD_CAPACITY {
            lemma_find_boundary_lower(input@, start as int, true, end as int);
        } else {
            lemma_find_boundary_is(input@, start as int, true, end as int);
        }
    }
    if end - start > VERSION_FIELD_CAPACITY {
        return Word::Invalid;
    }
    if end == len {
        return Word::Incomplete;
    }
    if end == start {
        return Word::Invalid;
    }
    let text = match field_of(slice_subrange(input, start, end)) {
        Some(text) => text,
        None => {
            return Word::Invalid;
        },
    };
    let mut next: usize = end;
    while next < len && is_separator(input[next])
        invariant
            end <= next <= len,
            len == input@.len(),
            forall|i: int| end <= i < next ==> is_separator_spec(#[trigger] input@[i]),
        decreases len - next,
    {
        next += 1;
    }
    proof {
        lemma_find_boundary_is(input@, end as int, false, next as int);
    }
    if next == len {
        Word::Incomplete
    } else {
        Word::Word { text, end, next }
    }
}

/// A version report as the parser found it.
#[derive(PartialEq, Eq, Debug)]
pub enum VersionParse<'a> {
    /// A whole report, and what follows it in the input.
    Complete { tail: &'a [u8], details: VersionDetails },
    /// A valid beginning that lacks at least `needed` bytes.
    Incomplete { needed: usize },
    /// No version report.
    Invalid,
}

impl<'a> View for VersionParse<'a> {
    type V = VersionParseView;

    open spec fn view(&self) -> VersionParseView {
        match self {
            VersionParse::Complete { tail, details } => VersionParseView::Complete {
                tail: tail@,
                details: details@,
            },
            VersionParse::Incomplete { needed } => VersionParseView::Incomplete {
                needed: *needed as int,
            },
            VersionParse::Invalid => VersionParseView::Invalid,
        }
    }
}

/// Whether `input` begins with the tag: the tail behind the tag where it
/// does, how many bytes of the tag are missing where `input` is a proper
/// beginning of it, a mismatch otherwise.
pub fn version_details_prefix(input: &[u8]) -> (r: PrefixMatch<'_>)
    ensures
        r@ == version_prefix_spec(input@),
{
    let shared: usize = if input.len() < VERSION_TAG_SIZE {
        input.len()
    } else {
        VERSION_TAG_SIZE
    };
    let mut i: usize = 0;
    while i < shared
        invariant
            i <= shared <= VERSION_TAG_SIZE,
            shared <= input@.len(),
            matches_tag(input@, i as int),
        decreases shared - i,
    {
        if input[i] != version_tag_byte(i) {
            return PrefixMatch::Mismatch;
        }
        i += 1;
    }
    if input.len() < VERSION_TAG_SIZE {
        PrefixMatch::Incomplete(VERSION_TAG_SIZE - input.len())
    } else {
        PrefixMatch::Matched(slice_subrange(input, VERSION_TAG_SIZE, input.len()))
    }
}

/// Parses a version report from the head of `input`.
pub fn version_details_parser(input: &[u8]) -> (r: VersionParse<'_>)
    ensures
        r@ == parse_version_spec(input@),
{
    let len = input.len();
    match version_details_prefix(input) {
        PrefixMatch::Matched(_) => {},
        PrefixMatch::Incomplete(needed) => {
            return VersionParse::Incomplete { needed };
        },
        PrefixMatch::Mismatch => {
            return VersionParse::Invalid;
        },
    }
    let (hardware_version, start2) = match scan_word(input, VERSION_TAG_SIZE) {
        Word::Word { text, next, .. } => (text, next),
        Word::Incomplete => {
            return VersionParse::Incomplete { needed: 1 };
        },
        Word::Invalid => {
            return VersionParse::Invalid;
        },
    };
    let (sensor_type, start3) = match scan_word(input, start2) {
        Word::Word { text, next, .. } => (text, next),
        Word::Incomplete => {
            return VersionParse::Incomplete { needed: 1 };
        },
        Word::Invalid => {
            return VersionParse::Invalid;
        },
    };
    let (firmware_version, start4) = match scan_word(input, start3) {
        Word::Word { text, next, .. } => (text, next),
        Word::Incomplete => {
            return VersionParse::Incomplete { needed: 1 };
        },
        Word::Invalid => {
            return VersionParse::Invalid;
        },
    };
    if len - start4 < SERIAL_NUMBER_SIZE {
        return VersionParse::Incomplete { needed: SERIAL_NUMBER_SIZE - (len - start4) };
    }
    let serial_number = match field_of(
        slice_subrange(input, start4, start4 + SERIAL_NUMBER_SIZE),
    ) {
        Some(text) => text,
        None => {
            return VersionParse::Invalid;
        },
    };
    VersionParse::Complete {
        tail: slice_subrange(input, start4 + SERIAL_NUMBER_SIZE, len),
        details: VersionDetails::from_fields(
            hardware_version,
            sensor_type,
            firmware_version,
            serial_number,
        ),
    }
}

} // verus!
