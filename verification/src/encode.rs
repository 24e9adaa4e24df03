//! Text to colour names: eight names for each byte, most significant bit first.

use vstd::prelude::*;
use vstd::string::StringExecFns;
use vstd::string::StringSliceAdditionalSpecFns;
use vstd::utf8::is_ascii_chars;
use crate::mapping::{bit_at, color_name, color_of, SEPARATOR};

verus! {

/// The eight colour names of a byte, most significant bit first.
pub open spec fn byte_tokens(byte: u8) -> Seq<Seq<char>> {
    Seq::new(8, |i: int| color_of(bit_at(byte, (7 - i) as u8)))
}

/// `parts` written one after the other with `separator` between neighbours.
pub open spec fn joined(parts: Seq<Seq<char>>, separator: Seq<char>) -> Seq<char>
    decreases parts.len(),
{
    if parts.len() == 0 {
        Seq::empty()
    } else if parts.len() == 1 {
        parts[0]
    } else {
        joined(parts.drop_last(), separator) + separator + parts.last()
    }
}

/// The line that stands for one byte.
pub open spec fn encoded_line(byte: u8) -> Seq<char> {
    joined(byte_tokens(byte), SEPARATOR@)
}

/// One line for each byte, in order.
pub open spec fn encoded_lines(bytes: Seq<u8>) -> Seq<Seq<char>> {
    Seq::new(bytes.len(), |i: int| encoded_line(bytes[i]))
}

/// What each string slice of `tokens` holds.
pub open spec fn token_texts(tokens: Seq<&str>) -> Seq<Seq<char>> {
    Seq::new(tokens.len(), |i: int| tokens[i]@)
}

/// What each string of `lines` holds.
pub open spec fn line_texts(lines: Seq<String>) -> Seq<Seq<char>> {
    Seq::new(lines.len(), |i: int| lines[i]@)
}

/// The eight colour names of `byte`, from bit 7 down to bit 0.
pub fn byte_to_colors(byte: u8) -> (tokens: Vec<&'static str>)
    ensures
        tokens.len() == 8,
        forall|i: int| 0 <= i < 8 ==> tokens[i]@ == color_of(bit_at(byte, (7 - i) as u8)),
        token_texts(tokens@) == byte_tokens(byte),
{
    let mut tokens: Vec<&'static str> = Vec::new();
    let mut i: u8 = 0;
    while i < 8
        invariant
            i <= 8,
            tokens.len() == i,
            forall|k: int| 0 <= k < i ==> tokens[k]@ == color_of(bit_at(byte, (7 - k) as u8)),
        decreases 8 - i,
    {
        let position: u8 = 7 - i;
        let bit = (byte >> position) & 1 == 1;
        tokens.push(color_name(bit));
        i = i + 1;
    }
    tokens
}

/// Joins `tokens` into one string, with `separator` between neighbours.
pub fn join_tokens(tokens: &[&str], separator: &str) -> (line: String)
    ensures
        line@ == joined(token_texts(tokens@), separator@),
{
    let mut line = String::new();
    let mut i: usize = 0;
    while i < tokens.len()
        invariant
            i <= tokens.len(),
            line@ == joined(token_texts(tokens@).take(i as int), separator@),
        decreases tokens.len() - i,
    {
        if i > 0 {
            line.append(separator);
        }
        line.append(tokens[i]);
        proof {
            let texts = token_texts(tokens@);
            assert(texts.take(i + 1).drop_last() =~= texts.take(i as int));
        }
        i = i + 1;
    }
    assert(token_texts(tokens@).take(i as int) =~= token_texts(tokens@));
    line
}

/// One line of colour names for each byte of `input` as UTF-8, in order.
pub fn encode_text(input: &str) -> (lines: Vec<String>)
    ensures
        lines.len() == input.spec_bytes().len(),
        forall|i: int| 0 <= i < lines.len() ==> lines[i]@ == encoded_line(input.spec_bytes()[i]),
        line_texts(lines@) == encoded_lines(input.spec_bytes()),
{
    let bytes = input.as_bytes();
    let mut lines: Vec<String> = Vec::new();
    let mut i: usize = 0;
    while i < bytes.len()
        invariant
            i <= bytes.len(),
            bytes@ == input.spec_bytes(),
            lines.len() == i,
            forall|k: int| 0 <= k < i ==> lines[k]@ == encoded_line(bytes[k]),
        decreases bytes.len() - i,
    {
        let tokens = byte_to_colors(bytes[i]);
        lines.push(join_tokens(tokens.as_slice(), SEPARATOR));
        i = i + 1;
    }
    lines
}

/// With two parts or more, a joined text is its first part, the separator and
/// the other parts joined.
pub proof fn lemma_joined_front(parts: Seq<Seq<char>>, separator: Seq<char>)
    requires
        parts.len() >= 2,
    ensures
        joined(parts, separator) == parts[0] + separator + joined(parts.drop_first(), separator),
    decreases parts.len(),
{
    if parts.len() == 2 {
        assert(joined(parts.drop_last(), separator) == parts[0]);
    } else {
        let front = parts.drop_last();
        lemma_joined_front(front, separator);
        assert(front.drop_first() =~= parts.drop_first().drop_last());
        assert(joined(parts, separator) =~= parts[0] + separator + joined(
            parts.drop_first(),
            separator,
        ));
    }
}

/// Joining ASCII parts with an ASCII separator gives ASCII text.
pub proof fn lemma_ascii_joined(parts: Seq<Seq<char>>, separator: Seq<char>)
    requires
        is_ascii_chars(separator),
        forall|i: int| 0 <= i < parts.len() ==> is_ascii_chars(#[trigger] parts[i]),
    ensures
        is_ascii_chars(joined(parts, separator)),
    decreases parts.len(),
{
    if parts.len() >= 2 {
        lemma_ascii_joined(parts.drop_last(), separator);
    }
}

} // verus!
