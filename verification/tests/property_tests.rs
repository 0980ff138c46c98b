use upid::b32::{decode, encode, DecodeError};
use upid::Upid;

/// A known identifier value and its exact text, byte and field forms.
const INT: u128 = 2080078208899192275105038102332577142;
const TEXT: &str = "user_2acdrlkjmhs6ar53taem6a";
const BYTES: [u8; 16] = [
    1, 144, 155, 198, 15, 147, 112, 67, 92, 97, 201, 149, 36, 214, 21, 118,
];

#[test]
fn encode_known_value() {
    assert_eq!(encode(INT), TEXT);
}

#[test]
fn decode_known_value() {
    assert_eq!(decode(TEXT), Ok(INT));
}

#[test]
fn round_trip_known_text() {
    // Parsing a canonical text and re-encoding reproduces it exactly.
    let text = "user_aaccvpp5guht4dts56je5a";
    let parsed = Upid::from_string(text).unwrap();
    assert_eq!(parsed.to_string(), text);
}

#[test]
fn round_trip_extreme_values() {
    assert_eq!(decode(&encode(0)), Ok(0));
    assert_eq!(decode(&encode(u128::MAX)), Ok(u128::MAX));
    assert_eq!(decode(&encode(1 << 88)), Ok(1 << 88));
}

#[test]
fn decode_ignores_separators_anywhere() {
    // Underscores are stripped wherever they stand, so a shifted separator
    // still decodes to the same value (though it is no longer canonical).
    let shifted = "user2_acdrlkjmhs6ar53taem6a";
    assert_eq!(decode(shifted), Ok(INT));
}

#[test]
fn decode_invalid_length() {
    assert_eq!(decode(""), Err(DecodeError::InvalidLength));
    assert_eq!(decode("user"), Err(DecodeError::InvalidLength));
    // 25 symbols after the separator is stripped
    assert_eq!(
        decode("user_2acdrlkjmhs6ar53taem6"),
        Err(DecodeError::InvalidLength)
    );
    // 27 symbols after the separator is stripped
    assert_eq!(
        decode("user_2acdrlkjmhs6ar53taem6aa"),
        Err(DecodeError::InvalidLength)
    );
    // underscores do not count toward the length
    assert_eq!(decode("___________________________"), Err(DecodeError::InvalidLength));
}

#[test]
fn decode_invalid_char() {
    // upper-case letters are outside the alphabet
    assert_eq!(
        decode("user_2Acdrlkjmhs6ar53taem6a"),
        Err(DecodeError::InvalidChar)
    );
    // so are the digits 0, 1, 8 and 9
    assert_eq!(
        decode("user_0acdrlkjmhs6ar53taem6a"),
        Err(DecodeError::InvalidChar)
    );
    assert_eq!(
        decode("user_1acdrlkjmhs6ar53taem6a"),
        Err(DecodeError::InvalidChar)
    );
    assert_eq!(
        decode("user_8acdrlkjmhs6ar53taem6a"),
        Err(DecodeError::InvalidChar)
    );
    assert_eq!(
        decode("user_9acdrlkjmhs6ar53taem6a"),
        Err(DecodeError::InvalidChar)
    );
}

#[test]
fn decode_overflow_version_symbol() {
    // the version symbol (last character) may only use the lower half of
    // the alphabet
    assert_eq!(
        decode("user_2acdrlkjmhs6ar53taem6z"),
        Err(DecodeError::Overflow)
    );
}

#[test]
fn decode_overflow_last_randomness_symbol() {
    // the last randomness symbol (next to last character) may only use the
    // lower half of the alphabet
    assert_eq!(
        decode("user_2acdrlkjmhs6ar53taemza"),
        Err(DecodeError::Overflow)
    );
}

#[test]
fn bytes_round_trip() {
    let upid = Upid(INT);
    assert_eq!(upid.to_bytes(), BYTES);
    assert_eq!(Upid::from_bytes(BYTES), upid);
}

#[test]
fn prefix_normalization_cases() {
    // exactly four alphabet characters are preserved verbatim
    assert_eq!(Upid::from_prefix("user").prefix(), "user");
    // shorter prefixes are right-padded with 'z'
    assert_eq!(Upid::from_prefix("us").prefix(), "uszz");
    // longer prefixes are clipped to four characters
    assert_eq!(Upid::from_prefix("abcdefgh").prefix(), "abcd");
    // characters outside the alphabet become 'z'
    assert_eq!(Upid::from_prefix("[0#/]]1,").prefix(), "zzzz");
    // alphabet characters survive even next to invalid ones
    assert_eq!(Upid::from_prefix("a#bc").prefix(), "azbc");
}

#[test]
fn timestamp_precision() {
    let ms: u128 = 1720568902000;
    let upid = Upid::from_prefix_and_milliseconds("user", ms);
    let got = u128::from(upid.milliseconds());
    assert!(ms - got < 256);
}

#[test]
fn deterministic_from_parts() {
    let a = Upid::from_parts("user", 1720568902000, 42);
    let b = Upid::from_parts("user", 1720568902000, 42);
    assert_eq!(a, b);
}

#[test]
fn text_sorts_by_time() {
    // whatever the random draws, a later timestamp (>= 256 ms apart) gives
    // text that compares above under plain string comparison
    let earlier = Upid::from_parts("user", 1000, u64::MAX);
    let later = Upid::from_parts("user", 1256, 0);
    assert!(earlier.to_string() < later.to_string());
}
