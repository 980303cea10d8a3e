use pngme::chunk::Chunk;
use pngme::chunk_type::ChunkType;
use pngme::commands;
use pngme::png::Png;
use pngme::PngError;

const SIGNATURE: [u8; 8] = [0x89, 0x50, 0x4e, 0x47, 0x0d, 0x0a, 0x1a, 0x0a];

fn record(code: &str, data: &[u8]) -> Chunk {
    Chunk::new(ChunkType::from_text(code).unwrap(), data.to_vec())
}

fn container_bytes(records: Vec<Chunk>) -> Vec<u8> {
    let mut out = SIGNATURE.to_vec();
    for r in records {
        out.extend(r.as_bytes());
    }
    out
}

fn minimal_container() -> Vec<u8> {
    container_bytes(vec![
        record("IHDR", &[1, 2, 3]),
        record("teXt", b"secret"),
        record("IEND", &[]),
    ])
}

#[test]
fn test_container_parse_and_lookup() {
    let bytes = minimal_container();
    let png = Png::parse(bytes.as_ref()).unwrap();
    assert_eq!(png.chunks().len(), 3);
    let found = png.chunk_by_type("teXt").unwrap();
    assert_eq!(found.data(), b"secret");
    assert!(png.chunk_by_type("coLd").is_none());
    assert!(png.chunk_by_type("not a code").is_none());
}

#[test]
fn test_container_remove_keeps_structure() {
    let bytes = minimal_container();
    let mut png = Png::parse(bytes.as_ref()).unwrap();
    let removed = png.remove_chunk("teXt").unwrap();
    assert_eq!(removed.data(), b"secret");
    assert_eq!(png.chunks().len(), 2);
    assert_eq!(png.chunks()[0].chunk_type().to_text(), "IHDR");
    assert_eq!(png.chunks()[1].chunk_type().to_text(), "IEND");
    // The result still parses as a valid container.
    let back = Png::parse(png.as_bytes().as_ref()).unwrap();
    assert_eq!(back.chunks().len(), 2);
    assert_eq!(
        png.remove_chunk("teXt").unwrap_err(),
        PngError::NotFound
    );
}

#[test]
fn test_container_round_trip() {
    let bytes = minimal_container();
    let png = Png::parse(bytes.as_ref()).unwrap();
    let serialized = png.as_bytes();
    assert_eq!(serialized, bytes);
    let back = Png::parse(serialized.as_ref()).unwrap();
    assert_eq!(back.chunks().len(), png.chunks().len());
    for (a, b) in back.chunks().iter().zip(png.chunks().iter()) {
        assert_eq!(a.chunk_type().bytes(), b.chunk_type().bytes());
        assert_eq!(a.data(), b.data());
        assert_eq!(a.crc(), b.crc());
    }
}

#[test]
fn test_find_first_of_equal_codes() {
    // Two records share a code: lookup returns the earlier one.
    let bytes = container_bytes(vec![
        record("IHDR", &[]),
        record("ruSt", b"first"),
        record("ruSt", b"second"),
        record("IEND", &[]),
    ]);
    let png = Png::parse(bytes.as_ref()).unwrap();
    let found = png.chunk_by_type("ruSt").unwrap();
    assert_eq!(found.data(), b"first");
    let mut png = png;
    let removed = png.remove_chunk("ruSt").unwrap();
    assert_eq!(removed.data(), b"first");
    assert_eq!(png.chunk_by_type("ruSt").unwrap().data(), b"second");
}

#[test]
fn test_short_buffer_is_rejected() {
    // 7 bytes: shorter than the signature. No panic, a clean failure.
    let bytes = [0x89, 0x50, 0x4e, 0x47, 0x0d, 0x0a, 0x1a];
    assert_eq!(
        Png::parse(bytes.as_ref()).unwrap_err(),
        PngError::SignatureMismatch
    );
    assert_eq!(Png::parse(&[]).unwrap_err(), PngError::SignatureMismatch);
}

#[test]
fn test_wrong_signature_is_rejected() {
    let mut bytes = minimal_container();
    bytes[0] = 0x88;
    assert_eq!(
        Png::parse(bytes.as_ref()).unwrap_err(),
        PngError::SignatureMismatch
    );
}

#[test]
fn test_structural_rules_are_checked() {
    // Signature alone: no records at all.
    assert_eq!(
        Png::parse(SIGNATURE.as_ref()).unwrap_err(),
        PngError::StructuralInvariantViolation
    );
    // First record is not the header.
    let bytes = container_bytes(vec![record("teXt", b"x"), record("IEND", &[])]);
    assert_eq!(
        Png::parse(bytes.as_ref()).unwrap_err(),
        PngError::StructuralInvariantViolation
    );
    // Last record is not the trailer.
    let bytes = container_bytes(vec![record("IHDR", &[]), record("teXt", b"x")]);
    assert_eq!(
        Png::parse(bytes.as_ref()).unwrap_err(),
        PngError::StructuralInvariantViolation
    );
}

#[test]
fn test_container_propagates_record_errors() {
    // A container whose middle record's checksum was corrupted.
    let mut bytes = minimal_container();
    let n = bytes.len();
    // The final record is the 12-byte empty trailer; the 4 bytes before it
    // are the middle record's checksum.
    bytes[n - 13] ^= 0xff;
    assert_eq!(
        Png::parse(bytes.as_ref()).unwrap_err(),
        PngError::ChecksumMismatch
    );
    // A container cut off in the middle of a record.
    let bytes = minimal_container();
    assert_eq!(
        Png::parse(&bytes[..bytes.len() - 4]).unwrap_err(),
        PngError::TruncatedInput
    );
}

#[test]
fn test_validate_command() {
    assert!(commands::validate("RuSt").is_ok());
    assert!(commands::validate("ruSt").is_ok());
    // Third letter lowercase: the reserved bit does not hold.
    assert_eq!(
        commands::validate("rust").unwrap_err(),
        PngError::MalformedTypeCode
    );
    assert_eq!(
        commands::validate("ru5t").unwrap_err(),
        PngError::MalformedTypeCode
    );
    assert_eq!(
        commands::validate("rusty").unwrap_err(),
        PngError::MalformedTypeCode
    );
}

#[test]
fn test_encode_decode_commands() {
    let bytes = container_bytes(vec![record("IHDR", &[1]), record("IEND", &[])]);
    let encoded = commands::encode(bytes.as_ref(), "ruSt", "hidden words").unwrap();
    assert_eq!(
        commands::decode(encoded.as_ref(), "ruSt").unwrap(),
        "hidden words"
    );
    // The inserted record sits before the trailer, which stays last.
    let png = Png::parse(encoded.as_ref()).unwrap();
    assert_eq!(png.chunks().len(), 3);
    assert_eq!(png.chunks()[1].chunk_type().to_text(), "ruSt");
    assert_eq!(png.chunks()[2].chunk_type().to_text(), "IEND");
    assert_eq!(
        commands::decode(encoded.as_ref(), "coLd").unwrap_err(),
        PngError::NotFound
    );
    assert_eq!(
        commands::encode(bytes.as_ref(), "ru5t", "x").unwrap_err(),
        PngError::MalformedTypeCode
    );
    assert_eq!(
        commands::decode(&bytes[..4], "ruSt").unwrap_err(),
        PngError::SignatureMismatch
    );
}

#[test]
fn test_get_chunks_command() {
    let bytes = minimal_container();
    let chunks = commands::get_chunks(bytes.as_ref()).unwrap();
    assert_eq!(chunks.len(), 3);
    assert_eq!(chunks[0].chunk_type().to_text(), "IHDR");
    assert_eq!(chunks[1].chunk_type().to_text(), "teXt");
    assert_eq!(chunks[2].chunk_type().to_text(), "IEND");
    assert!(commands::get_chunks(&[1, 2, 3]).is_err());
}

#[test]
fn test_remove_chunk_command() {
    let bytes = minimal_container();
    let out = commands::remove_chunk(bytes.as_ref(), "teXt").unwrap();
    let png = Png::parse(out.as_ref()).unwrap();
    assert_eq!(png.chunks().len(), 2);
    assert!(png.chunk_by_type("teXt").is_none());
    assert_eq!(
        commands::remove_chunk(out.as_ref(), "teXt").unwrap_err(),
        PngError::NotFound
    );
}

#[test]
fn test_decode_rejects_non_text_data() {
    let bytes = container_bytes(vec![
        record("IHDR", &[]),
        record("ruSt", &[0xff, 0x00, 0xfe]),
        record("IEND", &[]),
    ]);
    assert_eq!(
        commands::decode(bytes.as_ref(), "ruSt").unwrap_err(),
        PngError::EncodingError
    );
}
