use pngme::chunk_type::ChunkType;

#[test]
pub fn test_chunk_type_from_bytes() {
    let expected = [82, 117, 83, 116];
    let actual = ChunkType::parse_bytes([82, 117, 83, 116]);

    assert_eq!(expected, actual.bytes());
}

#[test]
pub fn test_chunk_type_from_str() {
    let expected = ChunkType::parse_bytes([82, 117, 83, 116]);
    let actual = ChunkType::parse_text("RuSt").unwrap();
    assert_eq!(expected, actual);
}

#[test]
pub fn test_chunk_type_is_critical() {
    let chunk = ChunkType::parse_text("RuSt").unwrap();
    assert!(chunk.is_critical());
}

#[test]
pub fn test_chunk_type_is_not_critical() {
    let chunk = ChunkType::parse_text("ruSt").unwrap();
    assert!(!chunk.is_critical());
}

#[test]
pub fn test_chunk_type_is_public() {
    let chunk = ChunkType::parse_text("RUSt").unwrap();
    assert!(chunk.is_public());
}

#[test]
pub fn test_chunk_type_is_not_public() {
    let chunk = ChunkType::parse_text("RuSt").unwrap();
    assert!(!chunk.is_public());
}

#[test]
pub fn test_chunk_type_is_reserved_bit_valid() {
    let chunk = ChunkType::parse_text("RuSt").unwrap();
    assert!(chunk.is_reserved_bit_valid());
}

#[test]
pub fn test_chunk_type_is_reserved_bit_invalid() {
    let chunk = ChunkType::parse_text("Rust").unwrap();
    assert!(!chunk.is_reserved_bit_valid());
}

#[test]
pub fn test_chunk_type_is_safe_to_copy() {
    let chunk = ChunkType::parse_text("RuSt").unwrap();
    assert!(chunk.is_safe_to_copy());
}

#[test]
pub fn test_chunk_type_is_unsafe_to_copy() {
    let chunk = ChunkType::parse_text("RuST").unwrap();
    assert!(!chunk.is_safe_to_copy());
}

#[test]
pub fn test_valid_chunk_is_valid() {
    let chunk = ChunkType::parse_text("RuSt").unwrap();
    assert!(chunk.is_valid());
}

#[test]
pub fn test_invalid_chunk_is_valid() {
    let chunk = ChunkType::parse_text("Rust").unwrap();
    assert!(!chunk.is_valid());

    let chunk = ChunkType::parse_text("Ru1t");
    assert!(chunk.is_err());
}

#[test]
pub fn test_chunk_type_string() {
    let chunk = ChunkType::parse_text("RuSt").unwrap();
    assert_eq!(&chunk.as_text().unwrap(), "RuSt");
}

#[test]
pub fn test_chunk_type_trait_impls() {
    let chunk_type_1: ChunkType = ChunkType::parse_bytes([82, 117, 83, 116]);
    let chunk_type_2: ChunkType = ChunkType::parse_text("RuSt").unwrap();
    let _chunk_string = format!("{:?}", chunk_type_1);
    let _are_chunks_equal = chunk_type_1 == chunk_type_2;
}

#[test]
fn test_text_wrong_length_rejected() {
    assert!(ChunkType::parse_text("Rus").is_err());
    assert!(ChunkType::parse_text("RuStX").is_err());
    assert!(ChunkType::parse_text("").is_err());
}

#[test]
fn test_text_any_digit_rejected() {
    assert!(ChunkType::parse_text("0uSt").is_err());
    assert!(ChunkType::parse_text("R9St").is_err());
    assert!(ChunkType::parse_text("Ru5t").is_err());
    assert!(ChunkType::parse_text("RuS7").is_err());
}

#[test]
fn test_nonalphabetic_bytes_tolerated_but_invalid() {
    let chunk = ChunkType::parse_bytes([82, 117, 83, 33]);
    assert_eq!(chunk.bytes(), [82, 117, 83, 33]);
    assert!(!chunk.is_valid());
}

#[test]
fn test_as_text_invalid_utf8() {
    let chunk = ChunkType::parse_bytes([0xff, 0xfe, 0x80, 0x81]);
    assert!(chunk.as_text().is_err());
}
