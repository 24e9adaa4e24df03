//! Binary digits to text: eight digits for each character, most significant first.

use vstd::prelude::*;
use vstd::slice::slice_subrange;
use vstd::string::StringExecFns;
use crate::mapping::is_bit_char;
use crate::text::{chars_of, string_of};

verus! {

/// Why a run of binary digits could not be turned into text.
#[derive(Clone, Copy, Debug, PartialEq, Eq, Structural)]
pub enum DecodeError {
    /// No binary digit was found, or their number is not a multiple of eight.
    InvalidInput,
    /// A chunk is not a binary numeral that fits in a byte.
    ParseError,
}

/// What is said of an input without digits or with a broken last group.
pub const INVALID_INPUT_MESSAGE: &'static str =
    "Bit input must contain 0/1 characters and be divisible by 8.";

/// What is said of a chunk that is no binary numeral.
pub const PARSE_ERROR_MESSAGE: &'static str = "Could not parse bit chunk.";

impl DecodeError {
    /// The message of this error, as a sequence of characters.
    pub open spec fn message_text(self) -> Seq<char> {
        match self {
            DecodeError::InvalidInput => INVALID_INPUT_MESSAGE@,
            DecodeError::ParseError => PARSE_ERROR_MESSAGE@,
        }
    }

    /// A sentence for a person to read.
    pub fn message(&self) -> (text: String)
        ensures
            text@ == self.message_text(),
    {
        match self {
            DecodeError::InvalidInput => String::from_str(INVALID_INPUT_MESSAGE),
            DecodeError::ParseError => String::from_str(PARSE_ERROR_MESSAGE),
        }
    }
}

/// The binary digits of `input`, in order; every other character is left out.
pub open spec fn cleaned(input: Seq<char>) -> Seq<char> {
    input.filter(|c: char| is_bit_char(c))
}

/// Whether every character of `chunk` is a binary digit.
pub open spec fn is_binary(chunk: Seq<char>) -> bool {
    forall|i: int| 0 <= i < chunk.len() ==> is_bit_char(#[trigger] chunk[i])
}

/// The number that `chunk` writes in base two, most significant digit first.
/// A character other than '1' counts as a zero.
pub open spec fn chunk_value(chunk: Seq<char>) -> nat
    decreases chunk.len(),
{
    if chunk.len() == 0 {
        0
    } else {
        2 * chunk_value(chunk.drop_last()) + if chunk.last() == '1' {
            1nat
        } else {
            0nat
        }
    }
}

/// The byte that `chunk` writes, where it writes one.
pub open spec fn parsed_chunk(chunk: Seq<char>) -> Result<u8, DecodeError> {
    if chunk.len() > 0 && is_binary(chunk) && chunk_value(chunk) <= 255 {
        Ok(chunk_value(chunk) as u8)
    } else {
        Err(DecodeError::ParseError)
    }
}

/// The `k`-th group of eight digits of `bits`.
pub open spec fn chunk_at(bits: Seq<char>, k: int) -> Seq<char> {
    bits.subrange(8 * k, 8 * k + 8)
}

/// The character with the code `byte`.
pub open spec fn char_of_byte(byte: u8) -> char {
    byte as char
}

/// The text that `bits` writes, one character for each full group of eight digits.
pub open spec fn text_of_bits(bits: Seq<char>) -> Seq<char> {
    Seq::new((bits.len() / 8) as nat, |k: int| char_of_byte(chunk_value(chunk_at(bits, k)) as u8))
}

/// The outcome of decoding `input`.
pub open spec fn decoded(input: Seq<char>) -> Result<Seq<char>, DecodeError> {
    let bits = cleaned(input);
    if bits.len() == 0 || bits.len() % 8 != 0 {
        Err(DecodeError::InvalidInput)
    } else {
        Ok(text_of_bits(bits))
    }
}

/// A numeral of at most eight digits is below 256.
pub proof fn lemma_chunk_value_bound(chunk: Seq<char>)
    requires
        chunk.len() <= 8,
    ensures
        chunk_value(chunk) < 256,
{
    reveal_with_fuel(chunk_value, 10);
}

/// Keeps the binary digits of `input` and drops every other character.
pub fn clean_bits(input: &[char]) -> (bits: Vec<char>)
    ensures
        bits@ == cleaned(input@),
{
    let mut bits: Vec<char> = Vec::new();
    let mut i: usize = 0;
    while i < input.len()
        invariant
            i <= input.len(),
            bits@ == cleaned(input@.take(i as int)),
        decreases input.len() - i,
    {
        let c = input[i];
        proof {
            reveal(Seq::filter);
            assert(input@.take(i + 1).drop_last() =~= input@.take(i as int));
        }
        if c == '0' || c == '1' {
            bits.push(c);
        }
        i = i + 1;
    }
    assert(input@.take(i as int) =~= input@);
    bits
}

/// Reads `chunk` as a binary numeral.
///
/// Succeeds exactly when `chunk` is not empty, holds binary digits only and
/// writes a number of at most 255.
pub fn parse_chunk(chunk: &[char]) -> (res: Result<u8, DecodeError>)
    ensures
        res == parsed_chunk(chunk@),
{
    if chunk.len() == 0 {
        return Err(DecodeError::ParseError);
    }
    let mut value: u8 = 0;
    let mut i: usize = 0;
    while i < chunk.len()
        invariant
            i <= chunk.len(),
            is_binary(chunk@.take(i as int)),
            value == chunk_value(chunk@.take(i as int)),
        decreases chunk.len() - i,
    {
        let c = chunk[i];
        proof {
            assert(chunk@.take(i + 1).drop_last() =~= chunk@.take(i as int));
        }
        if c != '0' && c != '1' {
            return Err(DecodeError::ParseError);
        }
        let digit: u8 = if c == '1' { 1 } else { 0 };
        if value > 127 {
            proof {
                lemma_chunk_value_grows(chunk@, i + 1);
            }
            return Err(DecodeError::ParseError);
        }
        value = 2 * value + digit;
        assert forall|k: int| 0 <= k < i + 1 implies is_bit_char(
            #[trigger] chunk@.take(i + 1)[k],
        ) by {
            if k < i {
                assert(chunk@.take(i + 1)[k] == chunk@.take(i as int)[k]);
            }
        }
        i = i + 1;
    }
    assert(chunk@.take(i as int) =~= chunk@);
    Ok(value)
}

/// A numeral is at least as large as any of its prefixes.
pub proof fn lemma_chunk_value_grows(chunk: Seq<char>, n: int)
    requires
        0 <= n <= chunk.len(),
    ensures
        chunk_value(chunk.take(n)) <= chunk_value(chunk),
    decreases chunk.len(),
{
    if n < chunk.len() {
        assert(chunk.drop_last().take(n) =~= chunk.take(n));
        lemma_chunk_value_grows(chunk.drop_last(), n);
    } else {
        assert(chunk.take(n) =~= chunk);
    }
}

/// Turns binary digits into text.
///
/// Every character of `bits` that is not a binary digit is dropped. What is
/// left must be a positive multiple of eight digits; each group of eight
/// gives the character whose code it writes.
pub fn decode_bits(bits: &str) -> (res: Result<String, DecodeError>)
    ensures
        res is Err <==> cleaned(bits@).len() == 0 || cleaned(bits@).len() % 8 != 0,
        res is Err ==> res == Err::<String, DecodeError>(DecodeError::InvalidInput),
        res is Ok ==> res->Ok_0@ == text_of_bits(cleaned(bits@)),
        match decoded(bits@) {
            Ok(text) => res is Ok && res->Ok_0@ == text,
            Err(e) => res == Err::<String, DecodeError>(e),
        },
{
    let chars = chars_of(bits);
    let digits = clean_bits(chars.as_slice());
    if digits.len() == 0 || digits.len() % 8 != 0 {
        return Err(DecodeError::InvalidInput);
    }
    let count: usize = digits.len() / 8;
    let mut out: Vec<char> = Vec::new();
    let mut k: usize = 0;
    while k < count
        invariant
            k <= count,
            count == digits.len() / 8,
            digits.len() % 8 == 0,
            digits@ == cleaned(bits@),
            out.len() == k,
            forall|j: int|
                0 <= j < k ==> out[j] == char_of_byte(chunk_value(chunk_at(digits@, j)) as u8),
        decreases count - k,
    {
        let chunk = slice_subrange(digits.as_slice(), 8 * k, 8 * k + 8);
        proof {
            lemma_cleaned_is_binary(bits@);
            lemma_chunk_value_bound(chunk@);
        }
        match parse_chunk(chunk) {
            Ok(value) => {
                out.push(value as char);
            },
            Err(e) => {
                return Err(e);
            },
        }
        k = k + 1;
    }
    Ok(string_of(out.as_slice()))
}

/// What cleaning leaves is binary digits only.
pub proof fn lemma_cleaned_is_binary(input: Seq<char>)
    ensures
        is_binary(cleaned(input)),
{
    broadcast use Seq::lemma_filter_pred;
}

/// Cleaning a text without binary digits leaves nothing.
pub proof fn lemma_cleaned_nothing(text: Seq<char>)
    requires
        forall|i: int| 0 <= i < text.len() ==> !is_bit_char(text[i]),
    ensures
        cleaned(text) == Seq::<char>::empty(),
    decreases text.len(),
{
    reveal(Seq::filter);
    if text.len() > 0 {
        lemma_cleaned_nothing(text.drop_last());
    }
}

/// Cleaning a text of binary digits leaves all of it.
pub proof fn lemma_cleaned_all(text: Seq<char>)
    requires
        forall|i: int| 0 <= i < text.len() ==> is_bit_char(text[i]),
    ensures
        cleaned(text) == text,
    decreases text.len(),
{
    reveal(Seq::filter);
    if text.len() > 0 {
        lemma_cleaned_all(text.drop_last());
    }
}

} // verus!
