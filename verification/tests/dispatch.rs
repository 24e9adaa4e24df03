use rain_light::decode::DecodeError;
use rain_light::dispatch::{dispatch, run_decode_bits, run_decode_colors, Command, Outcome};
use rain_light::text::same_text;

#[test]
fn no_subcommand_shows_usage() {
    assert_eq!(dispatch(None, &[]), Outcome::Usage);
    assert_eq!(dispatch(None, &["encode"]), Outcome::Usage);
}

#[test]
fn unknown_subcommand_is_named() {
    assert_eq!(
        dispatch(Some("frobnicate"), &["x"]),
        Outcome::UnknownCommand { name: "frobnicate".to_string() }
    );
    assert_eq!(dispatch(Some("Encode"), &["x"]), Outcome::UnknownCommand { name: "Encode".to_string() });
    assert_eq!(dispatch(Some(""), &[]), Outcome::UnknownCommand { name: String::new() });
}

#[test]
fn encode_without_text_is_missing_text() {
    assert_eq!(dispatch(Some("encode"), &[]), Outcome::MissingText);
    assert_eq!(dispatch(Some("encode"), &[""]), Outcome::MissingText);
}

#[test]
fn encode_joins_words_with_a_space() {
    let outcome = dispatch(Some("encode"), &["a", "b"]);
    match outcome {
        Outcome::Encoded { text, lines } => {
            assert_eq!(text, "a b");
            assert_eq!(lines.len(), 3);
            assert_eq!(
                lines[1],
                "Olive Green | Olive Green | Forest Green | Olive Green | Olive Green | Olive Green | Olive Green | Olive Green"
            );
        }
        other => panic!("unexpected outcome: {:?}", other),
    }
}

#[test]
fn encode_two_empty_words_is_one_space() {
    match dispatch(Some("encode"), &["", ""]) {
        Outcome::Encoded { text, lines } => {
            assert_eq!(text, " ");
            assert_eq!(lines.len(), 1);
        }
        other => panic!("unexpected outcome: {:?}", other),
    }
}

#[test]
fn decode_bits_joins_arguments_without_gap() {
    assert_eq!(
        dispatch(Some("decode-bits"), &["0100", "1000", "01101001"]),
        Outcome::DecodedBits { text: "Hi".to_string() }
    );
}

#[test]
fn decode_bits_failure_is_reported() {
    assert_eq!(
        dispatch(Some("decode-bits"), &[]),
        Outcome::DecodeFailed { error: DecodeError::InvalidInput }
    );
    assert_eq!(
        dispatch(Some("decode-bits"), &["0000000"]),
        Outcome::DecodeFailed { error: DecodeError::InvalidInput }
    );
}

#[test]
fn decode_colors_without_words_is_missing_colors() {
    assert_eq!(dispatch(Some("decode-colors"), &[]), Outcome::MissingColors);
    assert_eq!(dispatch(Some("decode-colors"), &[""]), Outcome::MissingColors);
}

#[test]
fn decode_colors_eight_zero_names_give_the_null_byte() {
    let payload = "Olive Green Olive Green Olive Green Olive Green Olive Green Olive Green Olive Green Olive Green";
    let expected = Outcome::DecodedColors { bits: "00000000".to_string(), text: "\0".to_string() };
    assert_eq!(dispatch(Some("decode-colors"), &[payload]), expected);
    let words: Vec<&str> = payload.split(' ').collect();
    assert_eq!(dispatch(Some("decode-colors"), &words), expected);
}

#[test]
fn decode_colors_failure_is_reported() {
    assert_eq!(
        dispatch(Some("decode-colors"), &["forest", "green"]),
        Outcome::DecodeFailed { error: DecodeError::InvalidInput }
    );
    assert_eq!(
        dispatch(Some("decode-colors"), &["no", "names", "here"]),
        Outcome::DecodeFailed { error: DecodeError::InvalidInput }
    );
}

#[test]
fn run_decode_bits_and_colors() {
    assert_eq!(run_decode_bits("01000001"), Outcome::DecodedBits { text: "A".to_string() });
    assert_eq!(run_decode_bits("1"), Outcome::DecodeFailed { error: DecodeError::InvalidInput });
    assert_eq!(
        run_decode_colors("olive green FOREST GREEN 000001"),
        Outcome::DecodedColors { bits: "01000001".to_string(), text: "A".to_string() }
    );
    assert_eq!(run_decode_colors(""), Outcome::DecodeFailed { error: DecodeError::InvalidInput });
}

#[test]
fn command_parse_and_gap() {
    assert_eq!(Command::parse("encode"), Some(Command::Encode));
    assert_eq!(Command::parse("decode-bits"), Some(Command::DecodeBits));
    assert_eq!(Command::parse("decode-colors"), Some(Command::DecodeColors));
    assert_eq!(Command::parse("decode"), None);
    assert_eq!(Command::parse("encode "), None);
    assert_eq!(Command::Encode.payload_gap(), " ");
    assert_eq!(Command::DecodeColors.payload_gap(), " ");
    assert_eq!(Command::DecodeBits.payload_gap(), "");
}

#[test]
fn same_text_compares_characters() {
    assert!(same_text("abc", "abc"));
    assert!(same_text("", ""));
    assert!(!same_text("abc", "abd"));
    assert!(!same_text("abc", "ab"));
}
