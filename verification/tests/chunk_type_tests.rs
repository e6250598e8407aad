use pngme::{ChunkType, ChunkTypeError};
use std::convert::TryFrom;
use std::str::FromStr;

#[test]
pub fn test_chunk_type_from_bytes() {
    let expected = [82, 117, 83, 116];
    let actual = ChunkType::try_from([82, 117, 83, 116]).unwrap();

    assert_eq!(expected, actual.bytes());
}

#[test]
pub fn test_chunk_type_from_str() {
    let expected = ChunkType::try_from([82, 117, 83, 116]).unwrap();
    let actual = ChunkType::from_str("RuSt").unwrap();
    assert_eq!(expected, actual);
}

#[test]
pub fn test_chunk_type_is_critical() {
    let chunk = ChunkType::from_str("RuSt").unwrap();
    assert!(chunk.is_critical());
}

#[test]
pub fn test_chunk_type_is_not_critical() {
    let chunk = ChunkType::from_str("ruSt").unwrap();
    assert!(!chunk.is_critical());
}

#[test]
pub fn test_chunk_type_is_public() {
    let chunk = ChunkType::from_str("RUSt").unwrap();
    assert!(chunk.is_public());
}

#[test]
pub fn test_chunk_type_is_not_public() {
    let chunk = ChunkType::from_str("RuSt").unwrap();
    assert!(!chunk.is_public());
}

#[test]
pub fn test_chunk_type_is_reserved_bit_valid() {
    let chunk = ChunkType::from_str("RuSt").unwrap();
    assert!(chunk.is_reserved_bit_valid());
}

#[test]
pub fn test_chunk_type_is_reserved_bit_invalid() {
    let chunk = ChunkType::from_str("Rust").unwrap();
    assert!(!chunk.is_reserved_bit_valid());
}

#[test]
pub fn test_chunk_type_is_safe_to_copy() {
    let chunk = ChunkType::from_str("RuSt").unwrap();
    assert!(chunk.is_safe_to_copy());
}

#[test]
pub fn test_chunk_type_is_unsafe_to_copy() {
    let chunk = ChunkType::from_str("RuST").unwrap();
    assert!(!chunk.is_safe_to_copy());
}

#[test]
pub fn test_valid_chunk_is_valid() {
    let chunk = ChunkType::from_str("RuSt").unwrap();
    assert!(chunk.is_valid());
}

#[test]
pub fn test_invalid_chunk_is_valid() {
    let chunk = ChunkType::from_str("Rust").unwrap();
    assert!(!chunk.is_valid());

    let chunk = ChunkType::from_str("Ru1t");
    assert!(chunk.is_err());
}

#[test]
pub fn test_chunk_type_string() {
    let chunk = ChunkType::from_str("RuSt").unwrap();
    assert_eq!(&chunk.to_string().unwrap(), "RuSt");
}

#[test]
pub fn test_chunk_type_trait_impls() {
    let chunk_type_1: ChunkType = TryFrom::try_from([82, 117, 83, 116]).unwrap();
    let chunk_type_2: ChunkType = FromStr::from_str("RuSt").unwrap();
    let _chunk_string = format!("{}", chunk_type_1.to_string().unwrap());
    let _are_chunks_equal = chunk_type_1 == chunk_type_2;
    assert!(_are_chunks_equal);
}

#[test]
fn new_accepts_any_four_bytes() {
    let t = ChunkType::new([0, 255, 7, 200]);
    assert_eq!(t.bytes(), [0, 255, 7, 200]);
    assert!(!t.is_valid());
}

#[test]
fn try_from_rejects_non_ascii_bytes() {
    assert_eq!(ChunkType::try_from([82, 117, 83, 200]).unwrap_err(), ChunkTypeError::InvalidASCII);
    assert_eq!(ChunkType::try_from([128, 117, 83, 116]).unwrap_err(), ChunkTypeError::InvalidASCII);
    assert!(ChunkType::try_from([127, 0, 83, 116]).is_ok());
}

#[test]
fn from_str_rejects_non_ascii_text() {
    assert_eq!(ChunkType::from_str("Ru\u{e9}t").unwrap_err(), ChunkTypeError::InvalidASCII);
    assert_eq!(ChunkType::from_str("\u{e9}\u{e9}").unwrap_err(), ChunkTypeError::InvalidASCII);
}

#[test]
fn from_str_rejects_wrong_lengths() {
    assert_eq!(ChunkType::from_str("").unwrap_err(), ChunkTypeError::InvalidLength);
    assert_eq!(ChunkType::from_str("RuS").unwrap_err(), ChunkTypeError::InvalidLength);
    assert_eq!(ChunkType::from_str("RuStt").unwrap_err(), ChunkTypeError::InvalidLength);
    assert_eq!(ChunkType::from_str("Ru1").unwrap_err(), ChunkTypeError::InvalidLength);
}

#[test]
fn from_str_rejects_digit_in_third_place() {
    assert_eq!(ChunkType::from_str("Ru1t").unwrap_err(), ChunkTypeError::InvalidChar);
    assert_eq!(ChunkType::from_str("Ru0t").unwrap_err(), ChunkTypeError::InvalidChar);
    assert_eq!(ChunkType::from_str("Ru9t").unwrap_err(), ChunkTypeError::InvalidChar);
}

#[test]
fn from_str_reports_the_first_broken_rule() {
    assert_eq!(ChunkType::from_str("R\u{e9}1").unwrap_err(), ChunkTypeError::InvalidASCII);
    assert_eq!(ChunkType::from_str("Ru1tt").unwrap_err(), ChunkTypeError::InvalidLength);
}

#[test]
fn from_str_accepts_digits_elsewhere_and_punctuation() {
    let t = ChunkType::from_str("1uS4").unwrap();
    assert_eq!(t.bytes(), [49, 117, 83, 52]);
    assert!(t.is_valid());
    assert!(!t.is_critical());
    assert!(!t.is_safe_to_copy());
    let p = ChunkType::from_str("Ru@t").unwrap();
    assert!(!p.is_reserved_bit_valid());
    assert!(!p.is_valid());
}

#[test]
fn validity_follows_the_third_character() {
    for text in ["RuSt", "ruAt", "ZZZZ", "abCd"] {
        assert!(ChunkType::from_str(text).unwrap().is_valid());
    }
    for text in ["Rust", "abcd", "Ru t", "Ru[t"] {
        assert!(!ChunkType::from_str(text).unwrap().is_valid());
    }
}

#[test]
fn case_bounds_are_the_letters() {
    assert!(ChunkType::new([65, 90, 65, 97]).is_critical());
    assert!(ChunkType::new([90, 90, 90, 122]).is_critical());
    assert!(!ChunkType::new([64, 64, 64, 96]).is_critical());
    assert!(!ChunkType::new([91, 91, 91, 123]).is_critical());
    assert!(!ChunkType::new([64, 64, 64, 96]).is_public());
    assert!(!ChunkType::new([91, 91, 91, 123]).is_reserved_bit_valid());
    assert!(ChunkType::new([65, 90, 65, 97]).is_safe_to_copy());
    assert!(ChunkType::new([90, 90, 90, 122]).is_safe_to_copy());
    assert!(!ChunkType::new([64, 64, 64, 96]).is_safe_to_copy());
    assert!(!ChunkType::new([91, 91, 91, 123]).is_safe_to_copy());
}

#[test]
fn text_of_a_type_that_is_not_utf8_is_refused() {
    let t = ChunkType::new([255, 117, 83, 116]);
    assert_eq!(t.to_string().unwrap_err(), ChunkTypeError::InvalidASCII);
}

#[test]
fn text_of_a_type_that_is_utf8_but_not_ascii() {
    let t = ChunkType::new([0xC3, 0xA9, 0xC3, 0xA9]);
    assert_eq!(t.to_string().unwrap(), "\u{e9}\u{e9}");
    assert!(!t.is_valid());
}

#[test]
fn equality_is_by_bytes() {
    assert_eq!(ChunkType::new([1, 2, 3, 4]), ChunkType::new([1, 2, 3, 4]));
    assert_ne!(ChunkType::new([1, 2, 3, 4]), ChunkType::new([1, 2, 3, 5]));
    assert_ne!(ChunkType::new([1, 2, 3, 4]), ChunkType::new([0, 2, 3, 4]));
}
