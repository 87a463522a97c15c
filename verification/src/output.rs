//! Frames as text: hexadecimal words in lines of four, and decimal
//! numbers parted by commas.

use crate::response::Frame;
use vstd::prelude::*;
use vstd::string::*;

verus! {

/// How many words stand in one line of hexadecimal text.
pub const HEX_WORDS_PER_LINE: usize = 4;

/// The digit, in upper case, of a value below sixteen.
pub open spec fn hex_digit(n: int) -> char {
    if n == 0 {
        '0'
    } else if n == 1 {
        '1'
    } else if n == 2 {
        '2'
    } else if n == 3 {
        '3'
    } else if n == 4 {
        '4'
    } else if n == 5 {
        '5'
    } else if n == 6 {
        '6'
    } else if n == 7 {
        '7'
    } else if n == 8 {
        '8'
    } else if n == 9 {
        '9'
    } else if n == 10 {
        'A'
    } else if n == 11 {
        'B'
    } else if n == 12 {
        'C'
    } else if n == 13 {
        'D'
    } else if n == 14 {
        'E'
    } else {
        'F'
    }
}

/// A pixel as four hexadecimal digits, the highest first.
pub open spec fn hex_word(v: u16) -> Seq<char> {
    seq![
        hex_digit(v as int / 4096),
        hex_digit(v as int / 256 % 16),
        hex_digit(v as int / 16 % 16),
        hex_digit(v as int % 16),
    ]
}

/// What stands in front of word `i` of a frame in hexadecimal text:
/// nothing in front of the first word, a line break in front of every
/// fourth word after it, a space in front of the others.
pub open spec fn hex_separator(i: int) -> Seq<char> {
    if i == 0 {
        Seq::empty()
    } else if i % (HEX_WORDS_PER_LINE as int) == 0 {
        seq!['\n']
    } else {
        seq![' ']
    }
}

/// A frame as hexadecimal text: its pixels as words, four to a line.
pub open spec fn frame_hex(pixels: Seq<u16>) -> Seq<char>
    decreases pixels.len(),
{
    if pixels.len() == 0 {
        Seq::empty()
    } else {
        frame_hex(pixels.drop_last()) + hex_separator(pixels.len() - 1) + hex_word(pixels.last())
    }
}

/// The texts of `parts`, with `separator` between each two.
pub open spec fn join(parts: Seq<Seq<char>>, separator: Seq<char>) -> Seq<char>
    decreases parts.len(),
{
    if parts.len() == 0 {
        Seq::empty()
    } else if parts.len() == 1 {
        parts[0]
    } else {
        join(parts.drop_last(), separator) + separator + parts.last()
    }
}

/// Frames as hexadecimal text, two empty lines between each two.
pub open spec fn frames_hex(frames: Seq<Frame>) -> Seq<char> {
    join(Seq::new(frames.len(), |i: int| frame_hex(frames[i]@)), seq!['\n', '\n', '\n'])
}

/// The decimal digit of a value below ten.
pub open spec fn decimal_digit(n: int) -> char {
    hex_digit(n)
}

/// A number in decimal, without leading zeros.
pub open spec fn decimal(n: nat) -> Seq<char>
    decreases n,
{
    if n < 10 {
        seq![decimal_digit(n as int)]
    } else {
        decimal(n / 10) + seq![decimal_digit(n as int % 10)]
    }
}

/// A frame as one line of decimal numbers parted by commas.
pub open spec fn frame_csv(pixels: Seq<u16>) -> Seq<char> {
    join(Seq::new(pixels.len(), |i: int| decimal(pixels[i] as nat)), seq![','])
}

/// Frames as lines of decimal numbers, one frame to a line.
pub open spec fn frames_csv(frames: Seq<Frame>) -> Seq<char> {
    join(Seq::new(frames.len(), |i: int| frame_csv(frames[i]@)), seq!['\n'])
}

/// The digit of a value below sixteen, as text.
fn digit_text(n: u16) -> (text: &'static str)
    requires
        n < 16,
    ensures
        text@ == seq![hex_digit(n as int)],
{
    proof {
        reveal_strlit("0");
        reveal_strlit("1");
        reveal_strlit("2");
        reveal_strlit("3");
        reveal_strlit("4");
        reveal_strlit("5");
        reveal_strlit("6");
        reveal_strlit("7");
        reveal_strlit("8");
        reveal_strlit("9");
        reveal_strlit("A");
        reveal_strlit("B");
        reveal_strlit("C");
        reveal_strlit("D");
        reveal_strlit("E");
        reveal_strlit("F");
    }
    let text = if n == 0 {
        "0"
    } else if n == 1 {
        "1"
    } else if n == 2 {
        "2"
    } else if n == 3 {
        "3"
    } else if n == 4 {
        "4"
    } else if n == 5 {
        "5"
    } else if n == 6 {
        "6"
    } else if n == 7 {
        "7"
    } else if n == 8 {
        "8"
    } else if n == 9 {
        "9"
    } else if n == 10 {
        "A"
    } else if n == 11 {
        "B"
    } else if n == 12 {
        "C"
    } else if n == 13 {
        "D"
    } else if n == 14 {
        "E"
    } else {
        "F"
    };
    assert(text@ =~= seq![hex_digit(n as int)]);
    text
}

/// Appends the four hexadecimal digits of `pixel` to `out`.
fn push_hex_word(out: &mut String, pixel: u16)
    ensures
        final(out)@ == old(out)@ + hex_word(pixel),
{
    out.append(digit_text(pixel / 4096));
    out.append(digit_text(pixel / 256 % 16));
    out.append(digit_text(pixel / 16 % 16));
    out.append(digit_text(pixel % 16));
    assert(out@ =~= old(out)@ + hex_word(pixel));
}

/// Appends `n` in decimal to `out`.
fn push_decimal(out: &mut String, n: u16)
    ensures
        final(out)@ == old(out)@ + decimal(n as nat),
    decreases n,
{
    if n >= 10 {
        push_decimal(out, n / 10);
    }
    out.append(digit_text(n % 10));
    assert(out@ =~= old(out)@ + decimal(n as nat));
}

/// Formats a frame as hexadecimal text: each pixel as a word of four
/// digits in upper case, four words to a line, a space between the words
/// of a line.
pub fn frame_to_hex(frame: &Frame) -> (text: String)
    ensures
        text@ == frame_hex(frame@),
{
    let mut out = String::new();
    let mut i: usize = 0;
    while i < frame.len()
        invariant
            i <= frame@.len(),
            out@ == frame_hex(frame@.take(i as int)),
        decreases frame@.len() - i,
    {
        proof {
            reveal_strlit("\n");
            reveal_strlit(" ");
            assert(frame@.take(i + 1).drop_last() =~= frame@.take(i as int));
        }
        if i == 0 {
        } else if i % HEX_WORDS_PER_LINE == 0 {
            out.append("\n");
        } else {
            out.append(" ");
        }
        assert(out@ =~= frame_hex(frame@.take(i as int)) + hex_separator(i as int));
        push_hex_word(&mut out, frame[i]);
        i += 1;
    }
    assert(frame@.take(frame@.len() as int) =~= frame@);
    out
}

/// Formats a frame as one line of text: its pixels in decimal, a comma
/// between each two.
pub fn frame_to_csv(frame: &Frame) -> (text: String)
    ensures
        text@ == frame_csv(frame@),
{
    let ghost parts = Seq::new(frame@.len(), |i: int| decimal(frame@[i] as nat));
    let mut out = String::new();
    let mut i: usize = 0;
    while i < frame.len()
        invariant
            i <= frame@.len(),
            parts == Seq::new(frame@.len(), |i: int| decimal(frame@[i] as nat)),
            out@ == join(parts.take(i as int), seq![',']),
        decreases frame@.len() - i,
    {
        proof {
            reveal_strlit(",");
            assert(parts.take(i + 1).drop_last() =~= parts.take(i as int));
        }
        if i > 0 {
            out.append(",");
        }
        push_decimal(&mut out, frame[i]);
        assert(out@ =~= join(parts.take(i + 1), seq![',']));
        i += 1;
    }
    assert(parts.take(frame@.len() as int) =~= parts);
    out
}

/// Formats frames as hexadecimal text, each frame as `frame_to_hex` does
/// and two empty lines between each two frames.
pub fn frames_to_hex(frames: &[Frame]) -> (text: String)
    ensures
        text@ == frames_hex(frames@),
{
    let ghost parts = Seq::new(frames@.len(), |i: int| frame_hex(frames@[i]@));
    let mut out = String::new();
    let mut i: usize = 0;
    while i < frames.len()
        invariant
            i <= frames@.len(),
            parts == Seq::new(frames@.len(), |i: int| frame_hex(frames@[i]@)),
            out@ == join(parts.take(i as int), seq!['\n', '\n', '\n']),
        decreases frames@.len() - i,
    {
        proof {
            reveal_strlit("\n\n\n");
            assert("\n\n\n"@ =~= seq!['\n', '\n', '\n']);
            assert(parts.take(i + 1).drop_last() =~= parts.take(i as int));
        }
        if i > 0 {
            out.append("\n\n\n");
        }
        let frame = frame_to_hex(&frames[i]);
        out.append(frame.as_str());
        assert(out@ =~= join(parts.take(i + 1), seq!['\n', '\n', '\n']));
        i += 1;
    }
    assert(parts.take(frames@.len() as int) =~= parts);
    out
}

/// Formats frames as text, each frame as `frame_to_csv` does and one
/// frame to a line.
pub fn frames_to_csv(frames: &[Frame]) -> (text: String)
    ensures
        text@ == frames_csv(frames@),
{
    let ghost parts = Seq::new(frames@.len(), |i: int| frame_csv(frames@[i]@));
    let mut out = String::new();
    let mut i: usize = 0;
    while i < frames.len()
        invariant
            i <= frames@.len(),
            parts == Seq::new(frames@.len(), |i: int| frame_csv(frames@[i]@)),
            out@ == join(parts.take(i as int), seq!['\n']),
        decreases frames@.len() - i,
    {
        proof {
            reveal_strlit("\n");
            assert(parts.take(i + 1).drop_last() =~= parts.take(i as int));
        }
        if i > 0 {
            out.append("\n");
        }
        let frame = frame_to_csv(&frames[i]);
        out.append(frame.as_str());
        assert(out@ =~= join(parts.take(i + 1), seq!['\n']));
        i += 1;
    }
    assert(parts.take(frames@.len() as int) =~= parts);
    out
}

} // verus!
