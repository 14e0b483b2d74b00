use pngme::chunk::Chunk;
use pngme::chunk::ChunkParseError;
use pngme::chunk_type::ChunkType;

fn testing_chunk() -> Chunk {
    let data_length: u32 = 42;
    let chunk_type = "RuSt".as_bytes();
    let message_bytes = "This is where your secret message will be!".as_bytes();
    let crc: u32 = 2882656334;

    let chunk_data: Vec<u8> = data_length
        .to_be_bytes()
        .iter()
        .chain(chunk_type.iter())
        .chain(message_bytes.iter())
        .chain(crc.to_be_bytes().iter())
        .copied()
        .collect();

    Chunk::parse(&chunk_data).unwrap()
}

#[test]
fn test_new_chunk() {
    let chunk_type = ChunkType::parse_text("RuSt").unwrap();
    let data = "This is where your secret message will be!".as_bytes().to_vec();
    let chunk = Chunk::new(chunk_type, data);
    assert_eq!(chunk.length(), 42);
    assert_eq!(chunk.crc(), 2882656334);
}

#[test]
fn test_chunk_length() {
    let chunk = testing_chunk();
    assert_eq!(chunk.length(), 42);
}

#[test]
fn test_chunk_type() {
    let chunk = testing_chunk();
    assert_eq!(chunk.chunk_type().as_text().unwrap(), String::from("RuSt"));
}

#[test]
fn test_chunk_string() {
    let chunk = testing_chunk();
    let chunk_string = chunk.data_as_string().unwrap();
    let expected_chunk_string = String::from("This is where your secret message will be!");
    assert_eq!(chunk_string, expected_chunk_string);
}

#[test]
fn test_chunk_crc() {
    let chunk = testing_chunk();
    assert_eq!(chunk.crc(), 2882656334);
}

#[test]
fn test_valid_chunk_from_bytes() {
    let data_length: u32 = 42;
    let chunk_type = "RuSt".as_bytes();
    let message_bytes = "This is where your secret message will be!".as_bytes();
    let crc: u32 = 2882656334;

    let chunk_data: Vec<u8> = data_length
        .to_be_bytes()
        .iter()
        .chain(chunk_type.iter())
        .chain(message_bytes.iter())
        .chain(crc.to_be_bytes().iter())
        .copied()
        .collect();

    let chunk = Chunk::parse(&chunk_data).unwrap();

    let chunk_string = chunk.data_as_string().unwrap();
    let expected_chunk_string = String::from("This is where your secret message will be!");

    assert_eq!(chunk.length(), 42);
    assert_eq!(chunk.chunk_type().as_text().unwrap(), String::from("RuSt"));
    assert_eq!(chunk_string, expected_chunk_string);
    assert_eq!(chunk.crc(), 2882656334);
}

#[test]
fn test_invalid_chunk_from_bytes() {
    let data_length: u32 = 42;
    let chunk_type = "RuSt".as_bytes();
    let message_bytes = "This is where your secret message will be!".as_bytes();
    let crc: u32 = 2882656333;

    let chunk_data: Vec<u8> = data_length
        .to_be_bytes()
        .iter()
        .chain(chunk_type.iter())
        .chain(message_bytes.iter())
        .chain(crc.to_be_bytes().iter())
        .copied()
        .collect();

    let chunk = Chunk::parse(&chunk_data);

    assert!(chunk.is_err());
}

#[test]
pub fn test_chunk_trait_impls() {
    let data_length: u32 = 42;
    let chunk_type = "RuSt".as_bytes();
    let message_bytes = "This is where your secret message will be!".as_bytes();
    let crc: u32 = 2882656334;

    let chunk_data: Vec<u8> = data_length
        .to_be_bytes()
        .iter()
        .chain(chunk_type.iter())
        .chain(message_bytes.iter())
        .chain(crc.to_be_bytes().iter())
        .copied()
        .collect();

    let chunk: Chunk = Chunk::parse(&chunk_data).unwrap();

    let _chunk_string = format!("{}", chunk.data_as_string().unwrap());
}

fn serialized_test_chunk() -> Vec<u8> {
    let chunk_type = ChunkType::parse_text("RuSt").unwrap();
    let data = "This is where your secret message will be!".as_bytes().to_vec();
    Chunk::new(chunk_type, data).as_bytes()
}

#[test]
fn test_chunk_round_trip() {
    let chunk_type = ChunkType::parse_text("RuSt").unwrap();
    let data = "This is where your secret message will be!".as_bytes().to_vec();
    let chunk = Chunk::new(chunk_type, data);
    let wire = chunk.as_bytes();

    let reparsed = Chunk::parse(&wire).unwrap();
    assert_eq!(reparsed.chunk_type().bytes(), chunk.chunk_type().bytes());
    assert_eq!(reparsed.data(), chunk.data());
    assert_eq!(reparsed.length(), chunk.length());
    assert_eq!(reparsed.crc(), chunk.crc());
}

#[test]
fn test_crc_is_deterministic_and_input_sensitive() {
    let first = Chunk::new(ChunkType::parse_text("RuSt").unwrap(), vec![1, 2, 3]);
    let second = Chunk::new(ChunkType::parse_text("RuSt").unwrap(), vec![1, 2, 3]);
    assert_eq!(first.crc(), second.crc());

    let other_data = Chunk::new(ChunkType::parse_text("RuSt").unwrap(), vec![1, 2, 4]);
    assert_ne!(first.crc(), other_data.crc());

    let other_type = Chunk::new(ChunkType::parse_text("RuSs").unwrap(), vec![1, 2, 3]);
    assert_ne!(first.crc(), other_type.crc());
}

#[test]
fn test_flipping_any_data_or_crc_byte_is_rejected() {
    let wire = serialized_test_chunk();
    for i in 8..wire.len() {
        let mut corrupted = wire.clone();
        corrupted[i] ^= 0x01;
        let result = Chunk::parse(&corrupted);
        assert_eq!(result.unwrap_err(), ChunkParseError::ChecksumMismatch);
    }
}

#[test]
fn test_parse_too_short() {
    let result = Chunk::parse(&[0, 0, 0, 1, 82, 117, 83]);
    assert_eq!(result.unwrap_err(), ChunkParseError::TooShort);
}

#[test]
fn test_parse_invalid_type() {
    // "Rust": the reserved bit of the third byte is not valid.
    let result = Chunk::parse(&[0, 0, 0, 0, 82, 117, 115, 116, 0, 0, 0, 0]);
    assert_eq!(result.unwrap_err(), ChunkParseError::InvalidType);
}

#[test]
fn test_parse_truncated_data() {
    let mut wire = serialized_test_chunk();
    wire.pop();
    let result = Chunk::parse(&wire);
    assert_eq!(result.unwrap_err(), ChunkParseError::TruncatedData);
}

#[test]
fn test_parse_exact_fit_boundary() {
    // A chunk whose declared length exactly fills the buffer parses; one more
    // declared byte fails.
    let wire = serialized_test_chunk();
    assert!(Chunk::parse(&wire).is_ok());

    let mut longer = wire.clone();
    longer[3] += 1;
    let result = Chunk::parse(&longer);
    assert_eq!(result.unwrap_err(), ChunkParseError::TruncatedData);
}

#[test]
fn test_data_as_string_invalid_utf8() {
    let chunk = Chunk::new(ChunkType::parse_text("RuSt").unwrap(), vec![0xff, 0xfe, 0x80]);
    assert!(chunk.data_as_string().is_err());
}

#[test]
fn test_empty_payload_chunk() {
    let chunk = Chunk::new(ChunkType::parse_text("RuSt").unwrap(), Vec::new());
    assert_eq!(chunk.length(), 0);
    let wire = chunk.as_bytes();
    assert_eq!(wire.len(), 12);
    let reparsed = Chunk::parse(&wire).unwrap();
    assert_eq!(reparsed.data(), &[] as &[u8]);
}
