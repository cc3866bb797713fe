use pngme::chunk::{check_declared, Chunk};
use pngme::chunk_type::ChunkType;
use pngme::error::{ChunkEncodingError, ChunkTypeDecodingError, Error};
use std::str::FromStr;

fn testing_chunk() -> Chunk {
    let data_length: u32 = 42;
    let chunk_type = "RuSt".as_bytes();
    let message_bytes = "This is where your secret message will be!".as_bytes();
    let crc: u32 = 2882656334;

    let chunk_data: Vec<u8> = data_length
        .to_be_bytes()
        .iter()
        .chain(chunk_type.iter())
        .chain(message_bytes.iter())
        .chain(crc.to_be_bytes().iter())
        .copied()
        .collect();

    Chunk::try_from(chunk_data.as_ref()).unwrap()
}

fn wire(length: u32, tag: &[u8], data: &[u8], crc: u32) -> Vec<u8> {
    length
        .to_be_bytes()
        .iter()
        .chain(tag.iter())
        .chain(data.iter())
        .chain(crc.to_be_bytes().iter())
        .copied()
        .collect()
}

fn reference_crc(tag: &[u8], data: &[u8]) -> u32 {
    let mut covered = tag.to_vec();
    covered.extend_from_slice(data);
    crc::Crc::<u32>::new(&crc::CRC_32_ISO_HDLC).checksum(&covered)
}

#[test]
fn test_new_chunk() {
    let chunk_type = ChunkType::from_str("RuSt").unwrap();
    let data = "This is where your secret message will be!"
        .as_bytes()
        .to_vec();
    let chunk = Chunk::new(chunk_type, data);
    assert_eq!(chunk.length(), 42);
    assert_eq!(chunk.crc(), 2882656334);
}

#[test]
fn test_chunk_length() {
    let chunk = testing_chunk();
    assert_eq!(chunk.length(), 42);
}

#[test]
fn test_chunk_type() {
    let chunk = testing_chunk();
    assert_eq!(chunk.chunk_type().to_string(), String::from("RuSt"));
}

#[test]
fn test_chunk_string() {
    let chunk = testing_chunk();
    let chunk_string = chunk.data_as_string().unwrap();
    let expected_chunk_string = String::from("This is where your secret message will be!");
    assert_eq!(chunk_string, expected_chunk_string);
}

#[test]
fn test_chunk_crc() {
    let chunk = testing_chunk();
    assert_eq!(chunk.crc(), 2882656334);
}

#[test]
fn test_valid_chunk_from_bytes() {
    let data_length: u32 = 42;
    let chunk_type = "RuSt".as_bytes();
    let message_bytes = "This is where your secret message will be!".as_bytes();
    let crc: u32 = 2882656334;

    let chunk_data: Vec<u8> = data_length
        .to_be_bytes()
        .iter()
        .chain(chunk_type.iter())
        .chain(message_bytes.iter())
        .chain(crc.to_be_bytes().iter())
        .copied()
        .collect();

    let chunk = Chunk::try_from(chunk_data.as_ref()).unwrap();

    let chunk_string = chunk.data_as_string().unwrap();
    let expected_chunk_string = String::from("This is where your secret message will be!");

    assert_eq!(chunk.length(), 42);
    assert_eq!(chunk.chunk_type().to_string(), String::from("RuSt"));
    assert_eq!(chunk_string, expected_chunk_string);
    assert_eq!(chunk.crc(), 2882656334);
}

#[test]
fn test_invalid_chunk_from_bytes() {
    let data_length: u32 = 42;
    let chunk_type = "RuSt".as_bytes();
    let message_bytes = "This is where your secret message will be!".as_bytes();
    let crc: u32 = 2882656333;

    let chunk_data: Vec<u8> = data_length
        .to_be_bytes()
        .iter()
        .chain(chunk_type.iter())
        .chain(message_bytes.iter())
        .chain(crc.to_be_bytes().iter())
        .copied()
        .collect();

    let chunk = Chunk::try_from(chunk_data.as_ref());

    assert!(chunk.is_err());
}

#[test]
pub fn test_chunk_trait_impls() {
    let data_length: u32 = 42;
    let chunk_type = "RuSt".as_bytes();
    let message_bytes = "This is where your secret message will be!".as_bytes();
    let crc: u32 = 2882656334;

    let chunk_data: Vec<u8> = data_length
        .to_be_bytes()
        .iter()
        .chain(chunk_type.iter())
        .chain(message_bytes.iter())
        .chain(crc.to_be_bytes().iter())
        .copied()
        .collect();

    let chunk: Chunk = Chunk::try_from(chunk_data.as_ref()).unwrap();

    let _chunk_string = format!("{:?}", chunk);
}

#[test]
fn secret_message_chunk_matches_reference_checksum() {
    let message = "This is where your secret message will be!".as_bytes();
    let expected = reference_crc(b"RuSt", message);
    let chunk = Chunk::new(ChunkType::from_str("RuSt").unwrap(), message.to_vec());
    assert_eq!(chunk.length() as usize, message.len());
    assert_eq!(chunk.crc(), expected);
    assert_eq!(chunk.as_bytes(), wire(42, b"RuSt", message, expected));
}

#[test]
fn checksum_of_known_vector() {
    // The CRC-32/ISO-HDLC check value of "IEND" with no data.
    let chunk = Chunk::new(ChunkType::from_str("IEND").unwrap(), Vec::new());
    assert_eq!(chunk.crc(), 0xAE426082);
    assert_eq!(chunk.as_bytes(), vec![0, 0, 0, 0, 73, 69, 78, 68, 0xAE, 0x42, 0x60, 0x82]);
}

#[test]
fn serialize_then_parse_recovers_the_chunk() {
    let cases: Vec<(&[u8; 4], Vec<u8>)> = vec![
        (b"RuSt", b"hello".to_vec()),
        (b"IEND", Vec::new()),
        (b"tEXt", (0u8..=255).collect()),
    ];
    for (tag, data) in cases {
        let c = Chunk::new(ChunkType::try_from(*tag).unwrap(), data.clone());
        let back = Chunk::try_from(c.as_bytes().as_slice()).unwrap();
        assert_eq!(back.chunk_type().bytes(), *tag);
        assert_eq!(back.data(), data.as_slice());
        assert_eq!(back.length(), c.length());
        assert_eq!(back.crc(), c.crc());
        assert_eq!(back.as_bytes(), c.as_bytes());
    }
}

#[test]
fn single_byte_corruption_is_a_crc_mismatch() {
    let c = Chunk::new(ChunkType::from_str("RuSt").unwrap(), b"some payload".to_vec());
    let good = c.as_bytes();
    let n = good.len();
    for i in 4..n - 4 {
        let mut bad = good.clone();
        bad[i] = if bad[i] == b'x' { b'y' } else { b'x' };
        assert_eq!(
            Chunk::try_from(bad.as_slice()).unwrap_err(),
            Error::Chunk(ChunkEncodingError::InvalidCrc(c.crc()))
        );
    }
}

#[test]
fn wrong_declared_length_is_reported_after_crc() {
    let data = b"abc";
    let crc = reference_crc(b"RuSt", data);
    let bytes = wire(7, b"RuSt", data, crc);
    assert_eq!(
        Chunk::try_from(bytes.as_slice()).unwrap_err(),
        Error::Chunk(ChunkEncodingError::InvalidLength(7))
    );
    let bytes = wire(7, b"RuSt", data, crc ^ 1);
    assert_eq!(
        Chunk::try_from(bytes.as_slice()).unwrap_err(),
        Error::Chunk(ChunkEncodingError::InvalidCrc(crc ^ 1))
    );
}

#[test]
fn short_input_and_bad_type_are_refused() {
    assert_eq!(
        Chunk::try_from(&[0u8, 0, 0, 0, 82, 117, 83, 116, 0, 0, 0][..]).unwrap_err(),
        Error::Chunk(ChunkEncodingError::Truncated(11))
    );
    let bytes = wire(0, b"Ru5t", &[], 0);
    assert_eq!(
        Chunk::try_from(bytes.as_slice()).unwrap_err(),
        Error::ChunkType(ChunkTypeDecodingError::BadByte(b'5'))
    );
}

#[test]
fn declared_fields_are_checked_crc_first() {
    assert_eq!(check_declared(5, 5, 3, 3), Ok(()));
    assert_eq!(check_declared(5, 6, 3, 3), Err(ChunkEncodingError::InvalidCrc(6)));
    assert_eq!(check_declared(5, 6, 3, 4), Err(ChunkEncodingError::InvalidCrc(6)));
    assert_eq!(check_declared(5, 5, 3, 4), Err(ChunkEncodingError::InvalidLength(4)));
}

#[test]
fn invalid_utf8_data_is_rendered_lossily() {
    let c = Chunk::new(ChunkType::from_str("RuSt").unwrap(), vec![b'o', b'k', 0xFF, b'!']);
    assert_eq!(c.data_as_string().unwrap(), "ok\u{FFFD}!");
}
