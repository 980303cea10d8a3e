use pngme::chunk::Chunk;
use pngme::chunk_type::ChunkType;
use pngme::PngError;

fn testing_chunk() -> Chunk {
    let data_length: u32 = 42;
    let chunk_type = "RuSt".as_bytes();
    let message_bytes = "This is where your secret message will be!".as_bytes();
    let crc: u32 = 2882656334;

    let chunk_data: Vec<u8> = data_length
        .to_be_bytes()
        .iter()
        .chain(chunk_type.iter())
        .chain(message_bytes.iter())
        .chain(crc.to_be_bytes().iter())
        .copied()
        .collect();

    Chunk::parse(chunk_data.as_ref()).unwrap()
}

#[test]
fn test_new_chunk() {
    let chunk_type = ChunkType::from_text("RuSt").unwrap();
    let data = "This is where your secret message will be!"
        .as_bytes()
        .to_vec();
    let chunk = Chunk::new(chunk_type, data);
    assert_eq!(chunk.length(), 42);
    assert_eq!(chunk.crc(), 2882656334);
}

#[test]
fn test_chunk_length() {
    let chunk = testing_chunk();
    assert_eq!(chunk.length(), 42);
}

#[test]
fn test_chunk_type() {
    let chunk = testing_chunk();
    assert_eq!(chunk.chunk_type().to_text(), String::from("RuSt"));
}

#[test]
fn test_chunk_string() {
    let chunk = testing_chunk();
    let chunk_string = chunk.data_as_string().unwrap();
    let expected_chunk_string = String::from("This is where your secret message will be!");
    assert_eq!(chunk_string, expected_chunk_string);
}

#[test]
fn test_chunk_crc() {
    let chunk = testing_chunk();
    assert_eq!(chunk.crc(), 2882656334);
}

#[test]
fn test_valid_chunk_from_bytes() {
    let data_length: u32 = 42;
    let chunk_type = "RuSt".as_bytes();
    let message_bytes = "This is where your secret message will be!".as_bytes();
    let crc: u32 = 2882656334;

    let chunk_data: Vec<u8> = data_length
        .to_be_bytes()
        .iter()
        .chain(chunk_type.iter())
        .chain(message_bytes.iter())
        .chain(crc.to_be_bytes().iter())
        .copied()
        .collect();

    let chunk = Chunk::parse(chunk_data.as_ref()).unwrap();

    let chunk_string = chunk.data_as_string().unwrap();
    let expected_chunk_string = String::from("This is where your secret message will be!");

    assert_eq!(chunk.length(), 42);
    assert_eq!(chunk.chunk_type().to_text(), String::from("RuSt"));
    assert_eq!(chunk_string, expected_chunk_string);
    assert_eq!(chunk.crc(), 2882656334);
}

#[test]
fn test_invalid_chunk_from_bytes() {
    let data_length: u32 = 42;
    let chunk_type = "RuSt".as_bytes();
    let message_bytes = "This is where your secret message will be!".as_bytes();
    let crc: u32 = 2882656333;

    let chunk_data: Vec<u8> = data_length
        .to_be_bytes()
        .iter()
        .chain(chunk_type.iter())
        .chain(message_bytes.iter())
        .chain(crc.to_be_bytes().iter())
        .copied()
        .collect();

    let chunk = Chunk::parse(chunk_data.as_ref());

    assert!(chunk.is_err());
}

#[test]
pub fn test_chunk_trait_impls() {
    let data_length: u32 = 42;
    let chunk_type = "RuSt".as_bytes();
    let message_bytes = "This is where your secret message will be!".as_bytes();
    let crc: u32 = 2882656334;

    let chunk_data: Vec<u8> = data_length
        .to_be_bytes()
        .iter()
        .chain(chunk_type.iter())
        .chain(message_bytes.iter())
        .chain(crc.to_be_bytes().iter())
        .copied()
        .collect();

    let chunk: Chunk = Chunk::parse(chunk_data.as_ref()).unwrap();

    let _chunk_string = format!(
        "chunk_type: {}, chunk_data: {}, crc: {}",
        chunk.chunk_type().to_text(),
        chunk.data_as_string().unwrap(),
        chunk.crc()
    );
}

#[test]
fn test_chunk_round_trip() {
    let chunk_type = ChunkType::from_text("ruSt").unwrap();
    let chunk = Chunk::new(chunk_type, vec![1, 2, 3, 254, 255]);
    let bytes = chunk.as_bytes();
    let back = Chunk::parse(bytes.as_ref()).unwrap();
    assert_eq!(back.chunk_type().bytes(), chunk.chunk_type().bytes());
    assert_eq!(back.data(), chunk.data());
    assert_eq!(back.crc(), chunk.crc());
}

#[test]
fn test_chunk_serialized_layout() {
    // A record built from code "RuSt" and data "hello" occupies exactly
    // 4 + 4 + 5 + 4 bytes, with the length field holding 5.
    let chunk_type = ChunkType::from_text("RuSt").unwrap();
    assert_eq!(chunk_type.bytes(), [0x52, 0x75, 0x53, 0x74]);
    let chunk = Chunk::new(chunk_type, "hello".as_bytes().to_vec());
    let bytes = chunk.as_bytes();
    assert_eq!(bytes.len(), 17);
    assert_eq!(&bytes[0..4], &[0x00, 0x00, 0x00, 0x05]);
    assert_eq!(&bytes[4..8], &[0x52, 0x75, 0x53, 0x74]);
    assert_eq!(&bytes[8..13], "hello".as_bytes());
}

#[test]
fn test_chunk_properties() {
    let chunk_type = ChunkType::from_text("RuSt").unwrap();
    assert!(chunk_type.is_critical());
    assert!(!chunk_type.is_public());
    assert!(chunk_type.is_reserved_bit_valid());
    assert!(chunk_type.is_safe_to_copy());
    assert!(chunk_type.is_valid());
}

#[test]
fn test_chunk_type_from_bytes_letters() {
    assert!(ChunkType::from_bytes([b'R', b'u', b'S', b't']).is_ok());
    assert!(ChunkType::from_bytes([b'I', b'H', b'D', b'R']).is_ok());
    assert_eq!(
        ChunkType::from_bytes([b'R', b'u', b'1', b't']).unwrap_err(),
        PngError::MalformedTypeCode
    );
    assert_eq!(
        ChunkType::from_bytes([0x00, b'u', b'S', b't']).unwrap_err(),
        PngError::MalformedTypeCode
    );
    assert_eq!(
        ChunkType::from_bytes([b'R', b'u', b'S', 0xff]).unwrap_err(),
        PngError::MalformedTypeCode
    );
}

#[test]
fn test_chunk_type_from_text_shapes() {
    assert_eq!(ChunkType::from_text("RuSt").unwrap().bytes(), *b"RuSt");
    assert_eq!(
        ChunkType::from_text("RuS").unwrap_err(),
        PngError::MalformedTypeCode
    );
    assert_eq!(
        ChunkType::from_text("RuSty").unwrap_err(),
        PngError::MalformedTypeCode
    );
    assert_eq!(
        ChunkType::from_text("Ru1t").unwrap_err(),
        PngError::MalformedTypeCode
    );
    assert_eq!(
        ChunkType::from_text("Ru\u{00e9}t").unwrap_err(),
        PngError::MalformedTypeCode
    );
}

#[test]
fn test_chunk_parse_truncated() {
    assert_eq!(
        Chunk::parse(&[0x00, 0x00, 0x00]).unwrap_err(),
        PngError::TruncatedInput
    );
    // Length declares 5 data bytes but only 2 follow before the checksum.
    let mut bytes: Vec<u8> = vec![0x00, 0x00, 0x00, 0x05];
    bytes.extend_from_slice(b"RuSt");
    bytes.extend_from_slice(&[0x01, 0x02]);
    bytes.extend_from_slice(&[0x00, 0x00, 0x00, 0x00]);
    assert_eq!(Chunk::parse(bytes.as_ref()).unwrap_err(), PngError::TruncatedInput);
}

#[test]
fn test_chunk_parse_malformed_type() {
    let chunk_type = ChunkType::from_text("ruSt").unwrap();
    let chunk = Chunk::new(chunk_type, vec![7, 8, 9]);
    let mut bytes = chunk.as_bytes();
    bytes[4] = 0x31;
    assert_eq!(
        Chunk::parse(bytes.as_ref()).unwrap_err(),
        PngError::MalformedTypeCode
    );
}

#[test]
fn test_chunk_single_byte_corruption_detected() {
    let chunk_type = ChunkType::from_text("ruSt").unwrap();
    let chunk = Chunk::new(chunk_type, b"some payload".to_vec());
    let bytes = chunk.as_bytes();
    // Flip one bit in every byte of the data region and of the checksum
    // region in turn: each corruption must be caught.
    for i in 8..bytes.len() {
        let mut corrupted = bytes.clone();
        corrupted[i] ^= 0x01;
        assert_eq!(
            Chunk::parse(corrupted.as_ref()).unwrap_err(),
            PngError::ChecksumMismatch
        );
    }
}

#[test]
fn test_chunk_data_not_text() {
    let chunk_type = ChunkType::from_text("ruSt").unwrap();
    let chunk = Chunk::new(chunk_type, vec![0xff, 0xfe, 0x00]);
    assert_eq!(chunk.data_as_string().unwrap_err(), PngError::EncodingError);
}
