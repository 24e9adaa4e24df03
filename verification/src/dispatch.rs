//! From a subcommand and its arguments to what is to be shown.

use vstd::prelude::*;
use vstd::string::StringExecFns;
use vstd::utf8::encode_utf8;
use crate::colors::{color_bits, colors_to_bits};
use crate::decode::{decode_bits, decoded, DecodeError};
use crate::encode::{encode_text, encoded_lines, join_tokens, joined, line_texts, token_texts};
use crate::text::same_text;

verus! {

/// The subcommand that turns text into colour names.
pub const ENCODE_COMMAND: &'static str = "encode";

/// The subcommand that turns binary digits into text.
pub const DECODE_BITS_COMMAND: &'static str = "decode-bits";

/// The subcommand that turns colour names into text.
pub const DECODE_COLORS_COMMAND: &'static str = "decode-colors";

/// What stands between the words of a payload.
pub const WORD_GAP: &'static str = " ";

/// What stands between the arguments of a payload of digits: nothing.
pub const NO_GAP: &'static str = "";

/// One of the three operations.
#[derive(Clone, Copy, Debug, PartialEq, Eq, Structural)]
pub enum Command {
    /// Text to colour names.
    Encode,
    /// Binary digits to text.
    DecodeBits,
    /// Colour names to text.
    DecodeColors,
}

impl Command {
    /// The operation that `name` asks for, if it is one of the three.
    pub open spec fn named(name: Seq<char>) -> Option<Command> {
        if name == ENCODE_COMMAND@ {
            Some(Command::Encode)
        } else if name == DECODE_BITS_COMMAND@ {
            Some(Command::DecodeBits)
        } else if name == DECODE_COLORS_COMMAND@ {
            Some(Command::DecodeColors)
        } else {
            None
        }
    }

    /// What joins the arguments of this operation into its payload.
    pub open spec fn gap(self) -> Seq<char> {
        match self {
            Command::DecodeBits => NO_GAP@,
            _ => WORD_GAP@,
        }
    }

    /// Reads a subcommand; the name must match exactly.
    pub fn parse(name: &str) -> (command: Option<Command>)
        ensures
            command == Command::named(name@),
    {
        if same_text(name, ENCODE_COMMAND) {
            Some(Command::Encode)
        } else if same_text(name, DECODE_BITS_COMMAND) {
            Some(Command::DecodeBits)
        } else if same_text(name, DECODE_COLORS_COMMAND) {
            Some(Command::DecodeColors)
        } else {
            None
        }
    }

    /// The separator with which the arguments of this operation are joined.
    pub fn payload_gap(self) -> (gap: &'static str)
        ensures
            gap@ == self.gap(),
    {
        match self {
            Command::DecodeBits => NO_GAP,
            _ => WORD_GAP,
        }
    }
}

/// What one run of the program has to show.
#[derive(Debug, PartialEq, Eq)]
pub enum Outcome {
    /// No subcommand was given: the usage text.
    Usage,
    /// `encode` without text: a complaint, then the usage text.
    MissingText,
    /// `encode`: the text, and one line of colour names for each of its bytes.
    Encoded { text: String, lines: Vec<String> },
    /// `decode-bits`: the decoded text.
    DecodedBits { text: String },
    /// `decode-colors` without words: a complaint.
    MissingColors,
    /// `decode-colors`: the binary digits that were found, and the decoded text.
    DecodedColors { bits: String, text: String },
    /// Either way of decoding failed.
    DecodeFailed { error: DecodeError },
    /// The subcommand is none of the three: a complaint, then the usage text.
    UnknownCommand { name: String },
}

/// An `Outcome` with its strings as sequences of characters.
pub enum OutcomeView {
    Usage,
    MissingText,
    Encoded { text: Seq<char>, lines: Seq<Seq<char>> },
    DecodedBits { text: Seq<char> },
    MissingColors,
    DecodedColors { bits: Seq<char>, text: Seq<char> },
    DecodeFailed { error: DecodeError },
    UnknownCommand { name: Seq<char> },
}

impl View for Outcome {
    type V = OutcomeView;

    open spec fn view(&self) -> OutcomeView {
        match self {
            Outcome::Usage => OutcomeView::Usage,
            Outcome::MissingText => OutcomeView::MissingText,
            Outcome::Encoded { text, lines } => OutcomeView::Encoded {
                text: text@,
                lines: line_texts(lines@),
            },
            Outcome::DecodedBits { text } => OutcomeView::DecodedBits { text: text@ },
            Outcome::MissingColors => OutcomeView::MissingColors,
            Outcome::DecodedColors { bits, text } => OutcomeView::DecodedColors {
                bits: bits@,
                text: text@,
            },
            Outcome::DecodeFailed { error } => OutcomeView::DecodeFailed { error: *error },
            Outcome::UnknownCommand { name } => OutcomeView::UnknownCommand { name: name@ },
        }
    }
}

/// What decoding `bits` has to show.
pub open spec fn bits_outcome(bits: Seq<char>) -> OutcomeView {
    match decoded(bits) {
        Ok(text) => OutcomeView::DecodedBits { text },
        Err(error) => OutcomeView::DecodeFailed { error },
    }
}

/// What decoding the colour names in `words` has to show.
pub open spec fn colors_outcome(words: Seq<char>) -> OutcomeView {
    let bits = color_bits(words);
    match decoded(bits) {
        Ok(text) => OutcomeView::DecodedColors { bits, text },
        Err(error) => OutcomeView::DecodeFailed { error },
    }
}

/// What is to be shown for a subcommand, if there is one, and the arguments
/// behind it.
pub open spec fn planned(command: Option<Seq<char>>, args: Seq<Seq<char>>) -> OutcomeView {
    match command {
        None => OutcomeView::Usage,
        Some(name) => match Command::named(name) {
            None => OutcomeView::UnknownCommand { name },
            Some(operation) => {
                let payload = joined(args, operation.gap());
                match operation {
                    Command::Encode => if payload.len() == 0 {
                        OutcomeView::MissingText
                    } else {
                        OutcomeView::Encoded {
                            text: payload,
                            lines: encoded_lines(encode_utf8(payload)),
                        }
                    },
                    Command::DecodeBits => bits_outcome(payload),
                    Command::DecodeColors => if payload.len() == 0 {
                        OutcomeView::MissingColors
                    } else {
                        colors_outcome(payload)
                    },
                }
            },
        },
    }
}

/// The subcommand as a sequence of characters, if there is one.
pub open spec fn command_text(command: Option<&str>) -> Option<Seq<char>> {
    match command {
        Some(name) => Some(name@),
        None => None,
    }
}

/// Decodes binary digits for showing.
pub fn run_decode_bits(bits: &str) -> (outcome: Outcome)
    ensures
        outcome@ == bits_outcome(bits@),
{
    match decode_bits(bits) {
        Ok(text) => Outcome::DecodedBits { text },
        Err(error) => Outcome::DecodeFailed { error },
    }
}

/// Finds the binary digits that the colour names in `words` stand for, and
/// decodes them for showing.
pub fn run_decode_colors(words: &str) -> (outcome: Outcome)
    ensures
        outcome@ == colors_outcome(words@),
{
    let bits = colors_to_bits(words);
    match decode_bits(bits.as_str()) {
        Ok(text) => Outcome::DecodedColors { bits, text },
        Err(error) => Outcome::DecodeFailed { error },
    }
}

/// Decides what one run of the program shows.
///
/// `command` is the first argument, if there is one, and `args` are the
/// arguments behind it. They are joined into one payload: with nothing between
/// them for `decode-bits`, with a space otherwise.
pub fn dispatch(command: Option<&str>, args: &[&str]) -> (outcome: Outcome)
    ensures
        outcome@ == planned(command_text(command), token_texts(args@)),
{
    let name = match command {
        Some(name) => name,
        None => {
            return Outcome::Usage;
        },
    };
    let operation = match Command::parse(name) {
        Some(operation) => operation,
        None => {
            return Outcome::UnknownCommand { name: String::from_str(name) };
        },
    };
    let payload = join_tokens(args, operation.payload_gap());
    match operation {
        Command::Encode => {
            if payload.as_str().is_empty() {
                Outcome::MissingText
            } else {
                let lines = encode_text(payload.as_str());
                Outcome::Encoded { text: payload, lines }
            }
        },
        Command::DecodeBits => run_decode_bits(payload.as_str()),
        Command::DecodeColors => {
            if payload.as_str().is_empty() {
                Outcome::MissingColors
            } else {
                run_decode_colors(payload.as_str())
            }
        },
    }
}

} // verus!
