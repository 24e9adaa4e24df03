use rain_light::colors::{bits_of_lowered, colors_to_bits, occurs_at, replace_all};
use rain_light::decode::{clean_bits, decode_bits, parse_chunk, DecodeError};
use rain_light::encode::{byte_to_colors, encode_text, join_tokens};
use rain_light::mapping::{color_name, ONE_COLOR, SEPARATOR, ZERO_COLOR};
use rain_light::text::{chars_of, string_of};

fn chars(s: &str) -> Vec<char> {
    s.chars().collect()
}

#[test]
fn mapping_names_are_fixed() {
    assert_eq!(ONE_COLOR, "Forest Green");
    assert_eq!(ZERO_COLOR, "Olive Green");
    assert_eq!(SEPARATOR, " | ");
    assert_eq!(color_name(true), "Forest Green");
    assert_eq!(color_name(false), "Olive Green");
}

#[test]
fn byte_to_colors_gives_eight_tokens_msb_first() {
    let f = "Forest Green";
    let o = "Olive Green";
    assert_eq!(byte_to_colors(0x41), vec![o, f, o, o, o, o, o, f]);
    assert_eq!(byte_to_colors(0x00), vec![o; 8]);
    assert_eq!(byte_to_colors(0xff), vec![f; 8]);
    assert_eq!(byte_to_colors(0x80), vec![f, o, o, o, o, o, o, o]);
    assert_eq!(byte_to_colors(0x01), vec![o, o, o, o, o, o, o, f]);
}

#[test]
fn byte_to_colors_always_eight() {
    for b in 0..=255u8 {
        assert_eq!(byte_to_colors(b).len(), 8);
    }
}

#[test]
fn join_tokens_puts_separator_between() {
    assert_eq!(join_tokens(&[], " | "), "");
    assert_eq!(join_tokens(&["a"], " | "), "a");
    assert_eq!(join_tokens(&["a", "b", "c"], " | "), "a | b | c");
    assert_eq!(join_tokens(&["a", "", "c"], ""), "ac");
}

#[test]
fn encode_text_letter_a() {
    let lines = encode_text("A");
    assert_eq!(
        lines,
        vec![
            "Olive Green | Forest Green | Olive Green | Olive Green | Olive Green | Olive Green | Olive Green | Forest Green"
                .to_string()
        ]
    );
}

#[test]
fn encode_text_empty_gives_no_line() {
    assert_eq!(encode_text(""), Vec::<String>::new());
}

#[test]
fn encode_text_one_line_per_byte() {
    assert_eq!(encode_text("Hi").len(), 2);
    // U+00E9 takes two bytes in UTF-8: 0xC3 0xA9.
    let lines = encode_text("\u{e9}");
    assert_eq!(lines.len(), 2);
    assert_eq!(colors_to_bits(&lines[0]), "11000011");
    assert_eq!(colors_to_bits(&lines[1]), "10101001");
}

#[test]
fn decode_bits_empty_is_invalid_input() {
    assert_eq!(decode_bits(""), Err(DecodeError::InvalidInput));
}

#[test]
fn decode_bits_seven_digits_is_invalid_input() {
    assert_eq!(decode_bits("0000000"), Err(DecodeError::InvalidInput));
}

#[test]
fn decode_bits_without_digits_is_invalid_input() {
    assert_eq!(decode_bits("hello, world"), Err(DecodeError::InvalidInput));
    assert_eq!(decode_bits("   "), Err(DecodeError::InvalidInput));
}

#[test]
fn decode_bits_nine_digits_is_invalid_input() {
    assert_eq!(decode_bits("010010000"), Err(DecodeError::InvalidInput));
}

#[test]
fn decode_bits_hi() {
    assert_eq!(decode_bits("0100100001101001"), Ok("Hi".to_string()));
}

#[test]
fn decode_bits_ignores_other_characters() {
    assert_eq!(decode_bits("0100 1000\n0110-1001"), Ok("Hi".to_string()));
    assert_eq!(decode_bits("x01001000y2"), Ok("H".to_string()));
    assert_eq!(decode_bits("0100\u{e9}1000"), Ok("H".to_string()));
}

#[test]
fn decode_bits_high_byte_is_one_character() {
    assert_eq!(decode_bits("11111111"), Ok("\u{ff}".to_string()));
    assert_eq!(decode_bits("00000000"), Ok("\0".to_string()));
    assert_eq!(decode_bits("11101001"), Ok("\u{e9}".to_string()));
}

#[test]
fn clean_bits_keeps_digits_in_order() {
    assert_eq!(clean_bits(&chars("a1b0 c1\t2")), chars("101"));
    assert_eq!(clean_bits(&chars("")), chars(""));
    assert_eq!(clean_bits(&chars("0110")), chars("0110"));
}

#[test]
fn parse_chunk_reads_binary() {
    assert_eq!(parse_chunk(&chars("01000001")), Ok(0x41));
    assert_eq!(parse_chunk(&chars("11111111")), Ok(255));
    assert_eq!(parse_chunk(&chars("0")), Ok(0));
    assert_eq!(parse_chunk(&chars("101")), Ok(5));
    assert_eq!(parse_chunk(&chars("000011111111")), Ok(255));
}

#[test]
fn parse_chunk_rejects_what_is_no_byte() {
    assert_eq!(parse_chunk(&chars("")), Err(DecodeError::ParseError));
    assert_eq!(parse_chunk(&chars("0100x001")), Err(DecodeError::ParseError));
    assert_eq!(parse_chunk(&chars("2")), Err(DecodeError::ParseError));
    assert_eq!(parse_chunk(&chars("100000000")), Err(DecodeError::ParseError));
    assert_eq!(parse_chunk(&chars("+1")), Err(DecodeError::ParseError));
}

#[test]
fn error_messages() {
    assert_eq!(
        DecodeError::InvalidInput.message(),
        "Bit input must contain 0/1 characters and be divisible by 8."
    );
    assert_eq!(DecodeError::ParseError.message(), "Could not parse bit chunk.");
}

#[test]
fn colors_to_bits_two_names() {
    assert_eq!(colors_to_bits("Forest Green Olive Green"), "10");
}

#[test]
fn colors_to_bits_any_case() {
    let s = "Forest Green, oLiVe GrEeN; forest green";
    assert_eq!(colors_to_bits(s), "101");
    assert_eq!(colors_to_bits(&s.to_uppercase()), "101");
    assert_eq!(colors_to_bits(&s.to_lowercase()), "101");
    assert_eq!(colors_to_bits("FOREST GREEN"), "1");
    assert_eq!(colors_to_bits("OLIVE GREEN"), "0");
}

#[test]
fn colors_to_bits_keeps_plain_digits_and_drops_noise() {
    assert_eq!(colors_to_bits("1 forest green 0 x 2"), "110");
    assert_eq!(colors_to_bits(""), "");
    assert_eq!(colors_to_bits("green forest"), "");
    assert_eq!(colors_to_bits("forest  green"), "");
    assert_eq!(colors_to_bits("forest greenolive green"), "10");
    assert_eq!(colors_to_bits("olive forest green green"), "1");
}

#[test]
fn bits_of_lowered_looks_for_lowercase_only() {
    assert_eq!(bits_of_lowered("forest green olive green"), "10");
    assert_eq!(bits_of_lowered("Forest Green olive green"), "0");
}

#[test]
fn replace_all_left_to_right() {
    assert_eq!(replace_all(&chars("aaa"), &chars("aa"), &chars("b")), chars("ba"));
    assert_eq!(replace_all(&chars("abcabc"), &chars("bc"), &chars("")), chars("aa"));
    assert_eq!(replace_all(&chars("abc"), &chars(""), &chars("x")), chars("abc"));
    assert_eq!(replace_all(&chars("abc"), &chars("abcd"), &chars("x")), chars("abc"));
    assert_eq!(replace_all(&chars(""), &chars("a"), &chars("x")), chars(""));
    assert_eq!(replace_all(&chars("xax"), &chars("a"), &chars("yyy")), chars("xyyyx"));
}

#[test]
fn occurs_at_checks_one_place() {
    assert!(occurs_at(&chars("hello"), 1, &chars("ell")));
    assert!(!occurs_at(&chars("hello"), 0, &chars("ell")));
    assert!(!occurs_at(&chars("hello"), 3, &chars("lol")));
    assert!(occurs_at(&chars("hello"), 5, &chars("")));
    assert!(!occurs_at(&chars("hello"), 4, &chars("oo")));
}

#[test]
fn chars_and_strings() {
    assert_eq!(chars_of("a\u{e9}b"), vec!['a', '\u{e9}', 'b']);
    assert_eq!(string_of(&['H', 'i']), "Hi");
    assert_eq!(string_of(&[]), "");
}

#[test]
fn every_byte_comes_back_from_its_line() {
    for b in 0..=255u8 {
        let line = join_tokens(&byte_to_colors(b), SEPARATOR);
        let bits = colors_to_bits(&line);
        assert_eq!(bits, format!("{:08b}", b));
        assert_eq!(decode_bits(&bits), Ok(char::from(b).to_string()));
    }
}

#[test]
fn text_round_trip() {
    let text = "Hello, world! 0123 ~";
    let mut bits = String::new();
    for line in encode_text(text) {
        bits.push_str(&colors_to_bits(&line));
    }
    assert_eq!(decode_bits(&bits), Ok(text.to_string()));
}

#[test]
fn text_round_trip_is_byte_for_byte() {
    let text = "\u{e9}";
    let mut bits = String::new();
    for line in encode_text(text) {
        bits.push_str(&colors_to_bits(&line));
    }
    assert_eq!(decode_bits(&bits), Ok("\u{c3}\u{a9}".to_string()));
}

#[test]
fn eight_zero_names_decode_to_the_null_byte() {
    let payload = "Olive Green Olive Green Olive Green Olive Green Olive Green Olive Green Olive Green Olive Green";
    let bits = colors_to_bits(payload);
    assert_eq!(bits, "00000000");
    assert_eq!(decode_bits(&bits), Ok("\0".to_string()));
}
