//! Colour names in free text to binary digits.

use vstd::prelude::*;
use vstd::utf8::is_ascii_chars;
use crate::decode::{clean_bits, cleaned};
use crate::encode::{joined, lemma_joined_front};
use crate::mapping::{ONE_COLOR, ZERO_COLOR};
use crate::text::{chars_of, string_of};

verus! {

/// The name of the set bit as it is looked for in lowercased text.
pub const ONE_PHRASE: &'static str = "forest green";

/// The name of the clear bit as it is looked for in lowercased text.
pub const ZERO_PHRASE: &'static str = "olive green";

/// The lowercase form of an ASCII capital letter; any other character unchanged.
pub open spec fn ascii_lower_char(c: char) -> char {
    if 'A' <= c && c <= 'Z' {
        ((c as u32) + 32) as char
    } else {
        c
    }
}

/// The capital form of an ASCII lowercase letter; any other character unchanged.
pub open spec fn ascii_upper_char(c: char) -> char {
    if 'a' <= c && c <= 'z' {
        ((c as u32) - 32) as char
    } else {
        c
    }
}

/// `text` with every ASCII capital letter made lowercase.
pub open spec fn ascii_lowercase(text: Seq<char>) -> Seq<char> {
    Seq::new(text.len(), |i: int| ascii_lower_char(text[i]))
}

/// `text` with every ASCII lowercase letter made capital.
pub open spec fn ascii_uppercase(text: Seq<char>) -> Seq<char> {
    Seq::new(text.len(), |i: int| ascii_upper_char(text[i]))
}

/// The lowercase form that Unicode gives to `text`.
pub uninterp spec fn unicode_lowercase(text: Seq<char>) -> Seq<char>;

/// The lowercase form of `text`: letter by letter where `text` is ASCII, and
/// what Unicode gives otherwise.
pub open spec fn lowered(text: Seq<char>) -> Seq<char> {
    if is_ascii_chars(text) {
        ascii_lowercase(text)
    } else {
        unicode_lowercase(text)
    }
}

/// `text` with every occurrence of `pattern` replaced by `replacement`,
/// found from left to right, a new search starting behind each occurrence.
/// An empty pattern occurs nowhere.
pub open spec fn replaced(text: Seq<char>, pattern: Seq<char>, replacement: Seq<char>) -> Seq<char>
    decreases text.len(),
{
    if pattern.len() == 0 || text.len() == 0 {
        text
    } else if pattern.is_prefix_of(text) {
        replacement + replaced(text.skip(pattern.len() as int), pattern, replacement)
    } else {
        seq![text[0]] + replaced(text.skip(1), pattern, replacement)
    }
}

/// The name of the set bit in lowercase.
pub open spec fn one_phrase() -> Seq<char> {
    ascii_lowercase(ONE_COLOR@)
}

/// The name of the clear bit in lowercase.
pub open spec fn zero_phrase() -> Seq<char> {
    ascii_lowercase(ZERO_COLOR@)
}

/// The binary digits that lowercased text stands for: each name of the set
/// bit is a '1', then each name of the clear bit a '0', and of the rest only
/// the binary digits stay.
pub open spec fn phrase_bits(lower: Seq<char>) -> Seq<char> {
    cleaned(replaced(replaced(lower, one_phrase(), seq!['1']), zero_phrase(), seq!['0']))
}

/// The binary digits that `text` stands for, whatever the case of its letters.
pub open spec fn color_bits(text: Seq<char>) -> Seq<char> {
    phrase_bits(lowered(text))
}

/// The two phrases are the two colour names in lowercase.
pub proof fn lemma_phrases()
    ensures
        ONE_PHRASE@ == one_phrase(),
        ZERO_PHRASE@ == zero_phrase(),
        ONE_PHRASE@.len() == 12,
        ZERO_PHRASE@.len() == 11,
{
    reveal_strlit("Forest Green");
    reveal_strlit("Olive Green");
    reveal_strlit("forest green");
    reveal_strlit("olive green");
}

/// The lowercase form of `text`.
///
/// Trusted: the body is `str::to_lowercase`. The result is a function of the
/// text alone and goes by the name `unicode_lowercase`. Of ASCII text std
/// says more: its capital letters become lowercase and nothing else changes.
#[verifier::external_body]
fn lowercase_text(text: &str) -> (lower: String)
    ensures
        lower@ == unicode_lowercase(text@),
        is_ascii_chars(text@) ==> lower@ == ascii_lowercase(text@),
{
    text.to_lowercase()
}

/// Whether `pattern` stands in `text` at index `at`.
pub fn occurs_at(text: &[char], at: usize, pattern: &[char]) -> (found: bool)
    ensures
        found == (at <= text.len() && pattern@.is_prefix_of(text@.skip(at as int))),
{
    if at > text.len() || pattern.len() > text.len() - at {
        return false;
    }
    let mut k: usize = 0;
    while k < pattern.len()
        invariant
            k <= pattern.len(),
            at + pattern.len() <= text.len(),
            forall|j: int| 0 <= j < k ==> pattern[j] == text[at + j],
        decreases pattern.len() - k,
    {
        if pattern[k] != text[at + k] {
            assert(text@.skip(at as int).subrange(0, pattern@.len() as int)[k as int]
                != pattern@[k as int]);
            return false;
        }
        k = k + 1;
    }
    true
}

/// Replaces every occurrence of `pattern` in `text` by `replacement`.
pub fn replace_all(text: &[char], pattern: &[char], replacement: &[char]) -> (out: Vec<char>)
    ensures
        out@ == replaced(text@, pattern@, replacement@),
{
    let mut out: Vec<char> = Vec::new();
    let mut i: usize = 0;
    proof {
        assert(text@.skip(0) =~= text@);
        assert(out@ + replaced(text@, pattern@, replacement@) =~= replaced(
            text@,
            pattern@,
            replacement@,
        ));
    }
    while i < text.len()
        invariant
            i <= text.len(),
            out@ + replaced(text@.skip(i as int), pattern@, replacement@) == replaced(
                text@,
                pattern@,
                replacement@,
            ),
        decreases text.len() - i,
    {
        let ghost rest = text@.skip(i as int);
        let ghost before = out@;
        if pattern.len() > 0 && occurs_at(text, i, pattern) {
            let mut k: usize = 0;
            while k < replacement.len()
                invariant
                    k <= replacement.len(),
                    out@ == before + replacement@.take(k as int),
                decreases replacement.len() - k,
            {
                out.push(replacement[k]);
                assert(replacement@.take(k + 1) =~= replacement@.take(k as int).push(
                    replacement@[k as int],
                ));
                k = k + 1;
            }
            proof {
                assert(rest.skip(pattern@.len() as int) =~= text@.skip(i + pattern@.len()));
            }
            i = i + pattern.len();
        } else {
            out.push(text[i]);
            proof {
                assert(rest.skip(1) =~= text@.skip(i + 1));
                let tail = replaced(text@.skip(i + 1), pattern@, replacement@);
                assert((before + seq![text@[i as int]]) + tail =~= before + (seq![text@[i as int]]
                    + tail));
            }
            i = i + 1;
        }
    }
    out
}

/// The binary digits that text already in lowercase stands for.
pub fn bits_of_lowered(lower: &str) -> (bits: String)
    ensures
        bits@ == phrase_bits(lower@),
{
    proof {
        lemma_phrases();
        reveal_strlit("1");
        reveal_strlit("0");
    }
    let text = chars_of(lower);
    let one = chars_of(ONE_PHRASE);
    let zero = chars_of(ZERO_PHRASE);
    let one_digit = chars_of("1");
    let zero_digit = chars_of("0");
    assert(one_digit@ =~= seq!['1']);
    assert(zero_digit@ =~= seq!['0']);
    let ones_done = replace_all(text.as_slice(), one.as_slice(), one_digit.as_slice());
    let both_done = replace_all(ones_done.as_slice(), zero.as_slice(), zero_digit.as_slice());
    let digits = clean_bits(both_done.as_slice());
    string_of(digits.as_slice())
}

/// The binary digits that the colour names in `input` stand for.
///
/// The input is put in lowercase first, so the names are found in any case.
/// Each name of the set bit gives a '1' and each name of the clear bit a
/// '0'; binary digits that stand in the input are kept, and everything else
/// is dropped. The result may be empty.
pub fn colors_to_bits(input: &str) -> (bits: String)
    ensures
        bits@ == color_bits(input@),
{
    let lower = lowercase_text(input);
    bits_of_lowered(lower.as_str())
}

/// An occurrence at the start is replaced, and the search goes on behind it.
pub proof fn lemma_replaced_match(rest: Seq<char>, pattern: Seq<char>, replacement: Seq<char>)
    requires
        pattern.len() > 0,
    ensures
        replaced(pattern + rest, pattern, replacement) == replacement + replaced(
            rest,
            pattern,
            replacement,
        ),
{
    let text = pattern + rest;
    assert(text.skip(pattern.len() as int) =~= rest);
}

/// Characters that differ from the first of the pattern start no occurrence:
/// a run of them stays as it is.
pub proof fn lemma_replaced_skip(
    block: Seq<char>,
    rest: Seq<char>,
    pattern: Seq<char>,
    replacement: Seq<char>,
)
    requires
        pattern.len() > 0,
        forall|i: int| 0 <= i < block.len() ==> block[i] != pattern[0],
    ensures
        replaced(block + rest, pattern, replacement) == block + replaced(
            rest,
            pattern,
            replacement,
        ),
    decreases block.len(),
{
    let text = block + rest;
    if block.len() == 0 {
        assert(block + replaced(rest, pattern, replacement) =~= replaced(
            rest,
            pattern,
            replacement,
        ));
    } else {
        assert(text[0] != pattern[0]);
        assert(text.skip(1) =~= block.skip(1) + rest);
        lemma_replaced_skip(block.skip(1), rest, pattern, replacement);
        assert(seq![text[0]] + (block.skip(1) + replaced(rest, pattern, replacement)) =~= block
            + replaced(rest, pattern, replacement));
    }
}

/// `parts` with each part that equals `pattern` exchanged for `replacement`.
pub open spec fn exchanged(
    parts: Seq<Seq<char>>,
    pattern: Seq<char>,
    replacement: Seq<char>,
) -> Seq<Seq<char>> {
    Seq::new(
        parts.len(),
        |i: int|
            if parts[i] == pattern {
                replacement
            } else {
                parts[i]
            },
    )
}

/// Whether `c` stands nowhere in `text`.
pub open spec fn lacks(text: Seq<char>, c: char) -> bool {
    forall|i: int| 0 <= i < text.len() ==> text[i] != c
}

/// In a joined text whose parts are either the pattern or free of its first
/// character, and whose separator is free of it too, replacing the pattern
/// exchanges the parts one by one.
pub proof fn lemma_replaced_joined(
    parts: Seq<Seq<char>>,
    separator: Seq<char>,
    pattern: Seq<char>,
    replacement: Seq<char>,
)
    requires
        pattern.len() > 0,
        lacks(separator, pattern[0]),
        forall|i: int|
            0 <= i < parts.len() ==> #[trigger] parts[i] == pattern || lacks(parts[i], pattern[0]),
    ensures
        replaced(joined(parts, separator), pattern, replacement) == joined(
            exchanged(parts, pattern, replacement),
            separator,
        ),
    decreases parts.len(),
{
    let after = exchanged(parts, pattern, replacement);
    let empty = Seq::<char>::empty();
    if parts.len() == 1 {
        if parts[0] == pattern {
            lemma_replaced_match(empty, pattern, replacement);
        } else {
            lemma_replaced_skip(parts[0], empty, pattern, replacement);
        }
    } else if parts.len() >= 2 {
        let others = parts.drop_first();
        let tail = joined(others, separator);
        lemma_joined_front(parts, separator);
        lemma_joined_front(after, separator);
        assert(after.drop_first() =~= exchanged(others, pattern, replacement));
        lemma_replaced_joined(others, separator, pattern, replacement);
        lemma_replaced_skip(separator, tail, pattern, replacement);
        assert(parts[0] + separator + tail =~= parts[0] + (separator + tail));
        if parts[0] == pattern {
            lemma_replaced_match(separator + tail, pattern, replacement);
        } else {
            lemma_replaced_skip(parts[0], separator + tail, pattern, replacement);
        }
    }
}

/// Each part of `parts` in lowercase.
pub open spec fn lowercase_parts(parts: Seq<Seq<char>>) -> Seq<Seq<char>> {
    Seq::new(parts.len(), |i: int| ascii_lowercase(parts[i]))
}

/// Lowercasing goes through joining.
pub proof fn lemma_lowercase_joined(parts: Seq<Seq<char>>, separator: Seq<char>)
    ensures
        ascii_lowercase(joined(parts, separator)) == joined(
            lowercase_parts(parts),
            ascii_lowercase(separator),
        ),
    decreases parts.len(),
{
    let low = lowercase_parts(parts);
    if parts.len() >= 2 {
        lemma_lowercase_joined(parts.drop_last(), separator);
        assert(low.drop_last() =~= lowercase_parts(parts.drop_last()));
        let front = joined(parts.drop_last(), separator);
        assert(ascii_lowercase(front + separator + parts.last()) =~= ascii_lowercase(front)
            + ascii_lowercase(separator) + ascii_lowercase(parts.last()));
    }
}

} // verus!
