use pngme::chunk::Chunk;
use pngme::commands::{decode, delete, encode};
use pngme::error::PngError;
use pngme::png::{signature, Png};

fn sample_bytes() -> Vec<u8> {
    let png = Png::from_chunks(vec![
        Chunk::from_str("IHDR", "header").unwrap(),
        Chunk::from_str("IEND", "").unwrap(),
    ]);
    png.bytes()
}

#[test]
fn encode_appends_a_chunk() {
    let out = encode(&sample_bytes(), "RuSt", "secret").unwrap();
    let png = Png::from_bytes(&out).unwrap();
    assert_eq!(png.chunks().len(), 3);
    assert_eq!(png.chunks()[2].chunk_type().str(), "RuSt");
    assert_eq!(png.chunks()[2].data_str().unwrap(), "secret");
    let mut expected = sample_bytes();
    expected.extend_from_slice(&Chunk::from_str("RuSt", "secret").unwrap().bytes());
    assert_eq!(out, expected);
}

#[test]
fn encode_then_decode() {
    let out = encode(&sample_bytes(), "RuSt", "secret").unwrap();
    assert_eq!(decode(&out, "RuSt").unwrap(), "secret");
}

#[test]
fn encode_errors() {
    assert_eq!(encode(&[1, 2, 3], "RuSt", "x"), Err(PngError::BadSignature));
    assert_eq!(encode(&sample_bytes(), "Ru1t", "x"), Err(PngError::InvalidTypeBytes));
    assert_eq!(encode(&sample_bytes(), "RuS", "x"), Err(PngError::InvalidLength { len: 3 }));
}

#[test]
fn decode_errors() {
    assert_eq!(decode(&sample_bytes(), "RuSt"), Err(PngError::ChunkNotFound));
    assert_eq!(decode(&signature(), "RuSt"), Err(PngError::ChunkNotFound));
    assert_eq!(decode(&[0u8; 8], "RuSt"), Err(PngError::BadSignature));
    let png = Png::from_chunks(vec![Chunk::new(
        pngme::chunk_type::ChunkType::from_str("RuSt").unwrap(),
        vec![0xc3, 0x28],
    )]);
    assert_eq!(decode(&png.bytes(), "RuSt"), Err(PngError::NotUtf8));
}

#[test]
fn delete_removes_first_match() {
    let with = encode(&sample_bytes(), "RuSt", "secret").unwrap();
    let out = delete(&with, "RuSt").unwrap();
    assert_eq!(out, sample_bytes());
    assert_eq!(delete(&out, "RuSt"), Err(PngError::ChunkNotFound));
    assert_eq!(delete(&[], "RuSt"), Err(PngError::BadSignature));
}
