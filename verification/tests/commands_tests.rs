use pngme::{decode, encode, remove, Chunk, ChunkError, ChunkType, ChunkTypeError, Error, Png, PngError};
use std::convert::TryFrom;
use std::str::FromStr;

const HEADER: [u8; 8] = [137, 80, 78, 71, 13, 10, 26, 10];

#[test]
fn encode_then_decode_returns_the_message() {
    let file = encode(&HEADER, "ruSt", "hello").unwrap();
    assert_eq!(decode(&file, "ruSt").unwrap(), "hello");
    assert_eq!(decode(&file, "XYZa").unwrap_err(), Error::Png(PngError::ChunkNotFound));
}

#[test]
fn encode_appends_exactly_one_chunk() {
    let file = encode(&HEADER, "ruSt", "hello").unwrap();
    let mut expected: Vec<u8> = HEADER.to_vec();
    expected.extend_from_slice(&[0, 0, 0, 5]);
    expected.extend_from_slice(b"ruSt");
    expected.extend_from_slice(b"hello");
    assert_eq!(&file[..21], expected.as_slice());
    assert_eq!(file.len(), 8 + 12 + 5);
    let png = Png::try_from(file.as_slice()).unwrap();
    assert_eq!(png.chunks().len(), 1);
    assert_eq!(png.chunks()[0].crc().to_be_bytes(), [file[21], file[22], file[23], file[24]]);
}

#[test]
fn encode_keeps_the_chunks_that_were_there() {
    let one = encode(&HEADER, "ruSt", "first").unwrap();
    let two = encode(&one, "teXt", "second").unwrap();
    assert_eq!(&two[..one.len()], one.as_slice());
    assert_eq!(decode(&two, "ruSt").unwrap(), "first");
    assert_eq!(decode(&two, "teXt").unwrap(), "second");
}

#[test]
fn encode_refuses_a_bad_chunk_type() {
    assert_eq!(
        encode(&HEADER, "Ru1t", "hello").unwrap_err(),
        Error::ChunkType(ChunkTypeError::InvalidChar)
    );
    assert_eq!(
        encode(&HEADER, "RuS", "hello").unwrap_err(),
        Error::ChunkType(ChunkTypeError::InvalidLength)
    );
    assert_eq!(
        encode(&HEADER, "Ru\u{e9}", "hello").unwrap_err(),
        Error::ChunkType(ChunkTypeError::InvalidASCII)
    );
}

#[test]
fn encode_reports_a_bad_file_before_a_bad_type() {
    assert_eq!(
        encode(&[1, 2, 3], "Ru1t", "hello").unwrap_err(),
        Error::Png(PngError::InvalidSignature)
    );
    let mut file = encode(&HEADER, "ruSt", "hello").unwrap();
    file.pop();
    assert_eq!(
        encode(&file, "Ru1t", "hello").unwrap_err(),
        Error::Png(PngError::Chunk(ChunkError::UnexpectedEof))
    );
}

#[test]
fn encode_accepts_a_type_that_is_not_valid() {
    let file = encode(&HEADER, "rust", "hello").unwrap();
    assert_eq!(decode(&file, "rust").unwrap(), "hello");
}

#[test]
fn decode_reads_the_first_chunk_of_the_type() {
    let one = encode(&HEADER, "ruSt", "first").unwrap();
    let two = encode(&one, "ruSt", "second").unwrap();
    assert_eq!(decode(&two, "ruSt").unwrap(), "first");
}

#[test]
fn decode_reports_a_damaged_file() {
    let mut file = encode(&HEADER, "ruSt", "hello").unwrap();
    file[18] ^= 0x20;
    assert_eq!(
        decode(&file, "ruSt").unwrap_err(),
        Error::Png(PngError::Chunk(ChunkError::InvalidCRC))
    );
    assert_eq!(decode(&[], "ruSt").unwrap_err(), Error::Png(PngError::InvalidSignature));
}

#[test]
fn decode_reports_data_that_is_not_text() {
    let chunk = Chunk::new(ChunkType::new(*b"biNy"), vec![0xFF, 0x00]);
    let file = Png::from_chunks(vec![chunk]).as_bytes();
    assert_eq!(
        decode(&file, "biNy").unwrap_err(),
        Error::Chunk(ChunkError::TextDecodeError)
    );
}

#[test]
fn remove_takes_the_message_out_again() {
    let file = encode(&HEADER, "ruSt", "hello").unwrap();
    let back = remove(&file, "ruSt").unwrap();
    assert_eq!(back, HEADER.to_vec());
    assert_eq!(decode(&back, "ruSt").unwrap_err(), Error::Png(PngError::ChunkNotFound));
}

#[test]
fn remove_takes_out_the_first_match_only() {
    let one = encode(&HEADER, "ruSt", "first").unwrap();
    let two = encode(&one, "teXt", "keep").unwrap();
    let three = encode(&two, "ruSt", "second").unwrap();
    let back = remove(&three, "ruSt").unwrap();
    assert_eq!(decode(&back, "ruSt").unwrap(), "second");
    assert_eq!(decode(&back, "teXt").unwrap(), "keep");
    assert_eq!(back.len(), three.len() - 12 - 5);
}

#[test]
fn remove_tells_not_found_from_a_bad_file() {
    let file = encode(&HEADER, "ruSt", "hello").unwrap();
    assert_eq!(remove(&file, "XYZa").unwrap_err(), Error::Png(PngError::ChunkNotFound));
    assert_eq!(remove(&HEADER, "ruSt").unwrap_err(), Error::Png(PngError::ChunkNotFound));
    assert_eq!(remove(&file[..3], "ruSt").unwrap_err(), Error::Png(PngError::InvalidSignature));
    let mut damaged = file.clone();
    damaged[24] ^= 0x80;
    assert_eq!(
        remove(&damaged, "XYZa").unwrap_err(),
        Error::Png(PngError::Chunk(ChunkError::InvalidCRC))
    );
}

#[test]
fn digit_in_third_place_never_reaches_the_checksum() {
    // A file that cannot be read is reported first; with a readable file the
    // type is refused and no chunk is built.
    assert_eq!(
        encode(&HEADER, "Ru1t", "secret").unwrap_err(),
        Error::ChunkType(ChunkTypeError::InvalidChar)
    );
    assert_eq!(
        ChunkType::from_str("Ru1t").unwrap_err(),
        ChunkTypeError::InvalidChar
    );
}
