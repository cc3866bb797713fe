use pngme::chunk::Chunk;
use pngme::chunk_type::ChunkType;
use pngme::commands::{decode, encode, print_chunks, remove};
use pngme::error::{ChunkTypeDecodingError, Error};
use pngme::png::Png;
use std::str::FromStr;

fn file_with(chunks: &[(&str, &str)]) -> Vec<u8> {
    let list = chunks
        .iter()
        .map(|(t, d)| Chunk::new(ChunkType::from_str(t).unwrap(), d.as_bytes().to_vec()))
        .collect();
    Png::from_chunks(list).as_bytes()
}

#[test]
fn encode_appends_when_type_is_absent() {
    let file = file_with(&[("IHDR", "head"), ("IEND", "")]);
    let out = encode(&file, "RuSt", "hidden").unwrap().unwrap();
    assert_eq!(out, file_with(&[("IHDR", "head"), ("IEND", ""), ("RuSt", "hidden")]));
    assert_eq!(decode(&out, "RuSt").unwrap(), Some("hidden".to_string()));
}

#[test]
fn encode_leaves_file_when_type_is_present() {
    let file = file_with(&[("RuSt", "old")]);
    assert_eq!(encode(&file, "RuSt", "new").unwrap(), None);
}

#[test]
fn encode_refuses_bad_type_and_bad_file() {
    let file = file_with(&[]);
    assert_eq!(
        encode(&file, "Ru1t", "x").unwrap_err(),
        Error::ChunkType(ChunkTypeDecodingError::BadByte(b'1'))
    );
    assert_eq!(encode(&[1, 2, 3], "RuSt", "x").unwrap_err(), Error::BadSignature);
}

#[test]
fn decode_missing_type_is_none() {
    let file = file_with(&[("IHDR", "head")]);
    assert_eq!(decode(&file, "RuSt").unwrap(), None);
    assert_eq!(
        decode(&file, "RuStt").unwrap_err(),
        Error::ChunkType(ChunkTypeDecodingError::BadLength(5))
    );
}

#[test]
fn remove_drops_first_chunk_of_type() {
    let file = file_with(&[("RuSt", "a"), ("IHDR", "b"), ("RuSt", "c")]);
    assert_eq!(remove(&file, "RuSt").unwrap(), file_with(&[("IHDR", "b"), ("RuSt", "c")]));
    assert_eq!(remove(&file, "nOne").unwrap_err(), Error::ChunkNotFound);
}

#[test]
fn print_lists_every_chunk_in_order() {
    let file = file_with(&[("IHDR", "head"), ("RuSt", "msg"), ("IEND", "")]);
    let lines = print_chunks(&file).unwrap();
    let expected: Vec<(String, String)> = vec![
        ("IHDR".to_string(), "head".to_string()),
        ("RuSt".to_string(), "msg".to_string()),
        ("IEND".to_string(), String::new()),
    ];
    assert_eq!(lines, expected);
    assert_eq!(print_chunks(&[0u8; 8]).unwrap_err(), Error::BadSignature);
}
