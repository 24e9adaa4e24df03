//! What holds of encoding and decoding together.

use vstd::prelude::*;
use vstd::utf8::{encode_utf8, is_ascii_chars};
use crate::colors::{
    ascii_lowercase, ascii_uppercase, color_bits, exchanged, lemma_lowercase_joined,
    lemma_replaced_joined, lowercase_parts, one_phrase, zero_phrase,
};
use crate::decode::{
    char_of_byte, chunk_at, chunk_value, cleaned, decoded, lemma_cleaned_all,
    lemma_cleaned_nothing, text_of_bits, DecodeError,
};
use crate::encode::{byte_tokens, encoded_line, encoded_lines, joined, lemma_ascii_joined};
use crate::mapping::{bit_at, digit_of, is_bit_char, SEPARATOR};

verus! {

/// The eight binary digits of a byte, most significant first.
pub open spec fn byte_bits(byte: u8) -> Seq<char> {
    Seq::new(8, |i: int| digit_of(bit_at(byte, (7 - i) as u8)))
}

/// The binary digits of `bytes`, eight for each byte, in order.
pub open spec fn text_bits(bytes: Seq<u8>) -> Seq<char> {
    Seq::new(8 * bytes.len(), |i: int| digit_of(bit_at(bytes[i / 8], (7 - i % 8) as u8)))
}

/// The character of each byte of `bytes`.
pub open spec fn chars_of_bytes(bytes: Seq<u8>) -> Seq<char> {
    Seq::new(bytes.len(), |i: int| char_of_byte(bytes[i]))
}

/// The binary digits of each line of `lines`, one line after the other.
pub open spec fn line_bits(lines: Seq<Seq<char>>) -> Seq<char>
    decreases lines.len(),
{
    if lines.len() == 0 {
        Seq::empty()
    } else {
        line_bits(lines.drop_last()) + color_bits(lines.last())
    }
}

/// Each digit of `digits` as a text of its own.
pub open spec fn digit_parts(digits: Seq<char>) -> Seq<Seq<char>> {
    Seq::new(digits.len(), |i: int| seq![digits[i]])
}

/// Of binary digits joined by a separator without digits, cleaning leaves the digits.
pub proof fn lemma_cleaned_joined(digits: Seq<char>, separator: Seq<char>)
    requires
        forall|i: int| 0 <= i < digits.len() ==> is_bit_char(digits[i]),
        forall|i: int| 0 <= i < separator.len() ==> !is_bit_char(separator[i]),
    ensures
        cleaned(joined(digit_parts(digits), separator)) == digits,
    decreases digits.len(),
{
    broadcast use Seq::filter_distributes_over_add;

    let parts = digit_parts(digits);
    if digits.len() == 0 {
        lemma_cleaned_all(digits);
    } else if digits.len() == 1 {
        assert(parts[0] =~= digits);
        lemma_cleaned_all(digits);
    } else {
        lemma_cleaned_joined(digits.drop_last(), separator);
        assert(parts.drop_last() =~= digit_parts(digits.drop_last()));
        lemma_cleaned_nothing(separator);
        lemma_cleaned_all(parts.last());
    }
}

/// The line of a byte stands for the eight binary digits of that byte.
pub proof fn lemma_line_bits_of_byte(byte: u8)
    ensures
        color_bits(encoded_line(byte)) == byte_bits(byte),
{
    reveal_strlit("Forest Green");
    reveal_strlit("Olive Green");
    reveal_strlit(" | ");
    let tokens = byte_tokens(byte);
    let sep = SEPARATOR@;
    let one = one_phrase();
    let zero = zero_phrase();
    let digits = byte_bits(byte);
    // The line is ASCII, so its lowercase form is the lowercase names joined.
    lemma_ascii_joined(tokens, sep);
    lemma_lowercase_joined(tokens, sep);
    assert(ascii_lowercase(sep) =~= sep);
    let low = lowercase_parts(tokens);
    // No 'f' but in the name of the set bit: each such name becomes a '1'.
    lemma_replaced_joined(low, sep, one, seq!['1']);
    let ones_done = exchanged(low, one, seq!['1']);
    // No 'o' but in the name of the clear bit: each such name becomes a '0'.
    lemma_replaced_joined(ones_done, sep, zero, seq!['0']);
    let both_done = exchanged(ones_done, zero, seq!['0']);
    assert(both_done =~= digit_parts(digits));
    // What is left is the digits with the separator between them.
    lemma_cleaned_joined(digits, sep);
}

/// The eight binary digits of a byte write that byte.
pub proof fn lemma_byte_bits_value(byte: u8)
    ensures
        chunk_value(byte_bits(byte)) == byte,
{
    reveal_with_fuel(chunk_value, 9);
    let b7: u8 = (byte >> 7u8) & 1u8;
    let b6: u8 = (byte >> 6u8) & 1u8;
    let b5: u8 = (byte >> 5u8) & 1u8;
    let b4: u8 = (byte >> 4u8) & 1u8;
    let b3: u8 = (byte >> 3u8) & 1u8;
    let b2: u8 = (byte >> 2u8) & 1u8;
    let b1: u8 = (byte >> 1u8) & 1u8;
    let b0: u8 = (byte >> 0u8) & 1u8;
    assert(b7 <= 1 && b6 <= 1 && b5 <= 1 && b4 <= 1 && b3 <= 1 && b2 <= 1 && b1 <= 1 && b0 <= 1
        && byte as u32 == 128u32 * (b7 as u32) + 64u32 * (b6 as u32) + 32u32 * (b5 as u32) + 16u32
        * (b4 as u32) + 8u32 * (b3 as u32) + 4u32 * (b2 as u32) + 2u32 * (b1 as u32) + (b0 as u32))
        by (bit_vector)
        requires
            b7 == (byte >> 7u8) & 1u8,
            b6 == (byte >> 6u8) & 1u8,
            b5 == (byte >> 5u8) & 1u8,
            b4 == (byte >> 4u8) & 1u8,
            b3 == (byte >> 3u8) & 1u8,
            b2 == (byte >> 2u8) & 1u8,
            b1 == (byte >> 1u8) & 1u8,
            b0 == (byte >> 0u8) & 1u8,
    ;
}

/// Decoding the line of a byte gives the character of that byte: the line,
/// cleaned of everything but its colour names, writes the byte back.
pub proof fn lemma_byte_round_trip(byte: u8)
    ensures
        decoded(color_bits(encoded_line(byte))) == Ok::<Seq<char>, DecodeError>(
            seq![char_of_byte(byte)],
        ),
{
    let digits = byte_bits(byte);
    lemma_line_bits_of_byte(byte);
    lemma_cleaned_all(digits);
    lemma_byte_bits_value(byte);
    assert(chunk_at(digits, 0) =~= digits);
    assert(text_of_bits(digits) =~= seq![char_of_byte(byte)]);
}

/// The lines of a text stand for the binary digits of its bytes.
pub proof fn lemma_line_bits_of_text(bytes: Seq<u8>)
    ensures
        line_bits(encoded_lines(bytes)) == text_bits(bytes),
    decreases bytes.len(),
{
    if bytes.len() > 0 {
        let front = bytes.drop_last();
        lemma_line_bits_of_text(front);
        lemma_line_bits_of_byte(bytes.last());
        assert(encoded_lines(bytes).drop_last() =~= encoded_lines(front));
        assert(text_bits(bytes) =~= text_bits(front) + byte_bits(bytes.last()));
    }
}

/// The `k`-th group of eight digits of a text is the digits of its `k`-th byte.
pub proof fn lemma_chunk_of_text_bits(bytes: Seq<u8>, k: int)
    requires
        0 <= k < bytes.len(),
    ensures
        chunk_at(text_bits(bytes), k) == byte_bits(bytes[k]),
{
    let bits = text_bits(bytes);
    let chunk = chunk_at(bits, k);
    assert forall|j: int| 0 <= j < 8 implies chunk[j] == byte_bits(bytes[k])[j] by {
        assert((8 * k + j) / 8 == k && (8 * k + j) % 8 == j);
    }
    assert(chunk =~= byte_bits(bytes[k]));
}

/// Encoding a text and decoding the binary digits of its lines gives the
/// text back, byte for byte: one character for each byte, with its code.
/// The empty text is left out, since no digits are no valid input.
pub proof fn lemma_text_round_trip(bytes: Seq<u8>)
    requires
        bytes.len() > 0,
    ensures
        decoded(line_bits(encoded_lines(bytes))) == Ok::<Seq<char>, DecodeError>(
            chars_of_bytes(bytes),
        ),
{
    let bits = text_bits(bytes);
    lemma_line_bits_of_text(bytes);
    lemma_cleaned_all(bits);
    assert forall|k: int| 0 <= k < bytes.len() implies char_of_byte(
        chunk_value(#[trigger] chunk_at(bits, k)) as u8,
    ) == char_of_byte(bytes[k]) by {
        lemma_chunk_of_text_bits(bytes, k);
        lemma_byte_bits_value(bytes[k]);
    }
    assert(text_of_bits(bits) =~= chars_of_bytes(bytes));
}

/// Encoding an ASCII text that is not empty and decoding the binary digits
/// of its lines gives the same text.
pub proof fn lemma_ascii_text_round_trip(text: Seq<char>)
    requires
        text.len() > 0,
        is_ascii_chars(text),
    ensures
        decoded(line_bits(encoded_lines(encode_utf8(text)))) == Ok::<Seq<char>, DecodeError>(text),
{
    let bytes = encode_utf8(text);
    vstd::utf8::is_ascii_chars_encode_utf8(text);
    lemma_text_round_trip(bytes);
    assert(chars_of_bytes(bytes) =~= text);
}

/// The case of ASCII letters does not matter to the binary digits that a
/// text stands for: the text, its capital form and its lowercase form give
/// the same digits.
pub proof fn lemma_color_bits_ignore_case(text: Seq<char>)
    requires
        is_ascii_chars(text),
    ensures
        color_bits(ascii_uppercase(text)) == color_bits(text),
        color_bits(ascii_lowercase(text)) == color_bits(text),
{
    let upper = ascii_uppercase(text);
    let lower = ascii_lowercase(text);
    assert(ascii_lowercase(upper) =~= lower);
    assert(ascii_lowercase(lower) =~= lower);
}

} // verus!
