use pngme::chunk_type::ChunkType;
use pngme::error::Error;
use std::convert::TryFrom;
use std::str::FromStr;

#[test]
pub fn test_chunk_type_from_bytes() {
    let expected = [82, 117, 83, 116];
    let actual = ChunkType::try_from([82, 117, 83, 116]).unwrap();

    assert_eq!(expected, actual.bytes());
}

#[test]
pub fn test_chunk_type_from_str() {
    let expected = ChunkType::try_from([82, 117, 83, 116]).unwrap();
    let actual = ChunkType::from_str("RuSt").unwrap();
    assert_eq!(expected, actual);
}

#[test]
pub fn test_chunk_type_is_critical() {
    let chunk = ChunkType::from_str("RuSt").unwrap();
    assert!(chunk.is_critical());
}

#[test]
pub fn test_chunk_type_is_not_critical() {
    let chunk = ChunkType::from_str("ruSt").unwrap();
    assert!(!chunk.is_critical());
}

#[test]
pub fn test_chunk_type_is_public() {
    let chunk = ChunkType::from_str("RUSt").unwrap();
    assert!(chunk.is_public());
}

#[test]
pub fn test_chunk_type_is_not_public() {
    let chunk = ChunkType::from_str("RuSt").unwrap();
    assert!(!chunk.is_public());
}

#[test]
pub fn test_chunk_type_is_reserved_bit_valid() {
    let chunk = ChunkType::from_str("RuSt").unwrap();
    assert!(chunk.is_reserved_bit_valid());
}

#[test]
pub fn test_chunk_type_is_reserved_bit_invalid() {
    let chunk = ChunkType::from_str("Rust").unwrap();
    assert!(!chunk.is_reserved_bit_valid());
}

#[test]
pub fn test_chunk_type_is_safe_to_copy() {
    let chunk = ChunkType::from_str("RuSt").unwrap();
    assert!(chunk.is_safe_to_copy());
}

#[test]
pub fn test_chunk_type_is_unsafe_to_copy() {
    let chunk = ChunkType::from_str("RuST").unwrap();
    assert!(!chunk.is_safe_to_copy());
}

#[test]
pub fn test_valid_chunk_is_valid() {
    let chunk = ChunkType::from_str("RuSt").unwrap();
    assert!(chunk.is_valid());
}

#[test]
pub fn test_invalid_chunk_is_valid() {
    let chunk = ChunkType::from_str("Rust").unwrap();
    assert!(!chunk.is_valid());

    let chunk = ChunkType::from_str("Ru1t");
    assert!(chunk.is_err());
}

#[test]
pub fn test_chunk_type_string() {
    let chunk = ChunkType::from_str("RuSt").unwrap();
    assert_eq!(&chunk.to_string(), "RuSt");
}

#[test]
pub fn test_chunk_type_trait_impls() {
    let chunk_type_1: ChunkType = TryFrom::try_from([82, 117, 83, 116]).unwrap();
    let chunk_type_2: ChunkType = FromStr::from_str("RuSt").unwrap();
    let _chunk_string = chunk_type_1.to_string();
    let _are_chunks_equal = chunk_type_1 == chunk_type_2;
}

#[test]
fn invalid_format_reports_offending_byte_and_position() {
    assert_eq!(
        ChunkType::from_str("Ru1t"),
        Err(Error::InvalidFormat { position: 2, byte: Some(b'1') })
    );
}

#[test]
fn invalid_format_on_short_text() {
    assert_eq!(
        ChunkType::from_str("Ru"),
        Err(Error::InvalidFormat { position: 2, byte: None })
    );
    assert_eq!(
        ChunkType::from_str(""),
        Err(Error::InvalidFormat { position: 0, byte: None })
    );
}

#[test]
fn invalid_format_on_long_text() {
    assert_eq!(
        ChunkType::from_str("RuStX"),
        Err(Error::InvalidFormat { position: 4, byte: Some(b'X') })
    );
}

#[test]
fn property_bits_of_rust_tags() {
    let t = ChunkType::from_str("RuSt").unwrap();
    assert!(t.is_critical());
    assert!(!t.is_public());
    assert!(t.is_safe_to_copy());
    assert!(t.is_valid());
    assert!(!ChunkType::from_str("ruSt").unwrap().is_critical());
    assert!(!ChunkType::from_str("RuST").unwrap().is_safe_to_copy());
    assert!(!ChunkType::from_str("Rust").unwrap().is_valid());
}

#[test]
fn from_bytes_accepts_any_bytes() {
    let t = ChunkType::from_bytes([0, 0xC0, 32, 7]);
    assert_eq!(t.bytes(), [0, 0xC0, 32, 7]);
    assert!(t.is_critical());
    assert!(t.is_public());
    assert!(!t.is_valid());
    assert!(!t.is_safe_to_copy());
}

#[test]
fn non_text_tag_renders_with_replacement_characters() {
    let t = ChunkType::from_bytes([b'R', 0xFF, b'S', b't']);
    assert_eq!(t.to_string(), "R\u{FFFD}St");
}

#[test]
fn is_named_compares_bytes() {
    let t = ChunkType::from_str("RuSt").unwrap();
    assert!(t.is_named("RuSt"));
    assert!(!t.is_named("rust"));
    assert!(!t.is_named("RuStx"));
}

#[test]
fn letter_tag_text_reads_back_as_same_tag() {
    let t = ChunkType::try_from([82, 117, 83, 116]).unwrap();
    let text = t.to_string();
    assert_eq!(text, "RuSt");
    assert_eq!(ChunkType::from_str(&text).unwrap(), t);
}
