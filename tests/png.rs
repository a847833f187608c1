use pngme::chunk::Chunk;
use pngme::error::PngError;
use pngme::png::{signature, Png};

const SIGNATURE: [u8; 8] = [0x89, 0x50, 0x4E, 0x47, 0x0D, 0x0A, 0x1A, 0x0A];

fn sample_chunks() -> Vec<Chunk> {
    vec![
        Chunk::from_str("FrSt", "I am the first chunk").unwrap(),
        Chunk::from_str("miDl", "I am another chunk").unwrap(),
        Chunk::from_str("LASt", "I am the last chunk").unwrap(),
    ]
}

fn sample_bytes() -> Vec<u8> {
    let mut bytes: Vec<u8> = SIGNATURE.to_vec();
    for c in sample_chunks() {
        bytes.extend_from_slice(&c.bytes());
    }
    bytes
}

#[test]
fn signature_bytes() {
    assert_eq!(signature(), SIGNATURE);
}

#[test]
fn parse_reads_chunks_in_order() {
    let png = Png::from_bytes(&sample_bytes()).unwrap();
    let tags: Vec<&str> = png.chunks().iter().map(|c| c.chunk_type().str()).collect();
    assert_eq!(tags, vec!["FrSt", "miDl", "LASt"]);
    assert_eq!(png.chunks()[1].data_str().unwrap(), "I am another chunk");
}

#[test]
fn parse_then_serialize_reproduces_bytes() {
    let bytes = sample_bytes();
    let png = Png::from_bytes(&bytes).unwrap();
    assert_eq!(png.bytes(), bytes);
    let again = Png::from_bytes(&png.bytes()).unwrap();
    assert_eq!(again, png);
}

#[test]
fn built_stream_round_trips() {
    let png = Png::from_chunks(sample_chunks());
    assert_eq!(png.bytes(), sample_bytes());
    assert_eq!(Png::from_bytes(&png.bytes()).unwrap(), png);
}

#[test]
fn signature_only_is_an_empty_stream() {
    let png = Png::from_bytes(&SIGNATURE).unwrap();
    assert!(png.chunks().is_empty());
    assert_eq!(png.bytes(), SIGNATURE.to_vec());
    assert_eq!(png.to_string(), "");
}

#[test]
fn bad_signature_is_refused() {
    for pos in 0..8 {
        let mut bytes = sample_bytes();
        bytes[pos] ^= 0x01;
        assert_eq!(Png::from_bytes(&bytes), Err(PngError::BadSignature));
    }
    assert_eq!(Png::from_bytes(&SIGNATURE[..7]), Err(PngError::BadSignature));
    assert_eq!(Png::from_bytes(&[]), Err(PngError::BadSignature));
    let mut other = vec![0u8; 8];
    other.extend_from_slice(&sample_bytes()[8..]);
    assert_eq!(Png::from_bytes(&other), Err(PngError::BadSignature));
}

#[test]
fn truncated_stream_is_refused() {
    let bytes = sample_bytes();
    let cut = &bytes[..bytes.len() - 1];
    assert!(matches!(Png::from_bytes(cut), Err(PngError::TooShort { .. })));
    let mut short_tail = SIGNATURE.to_vec();
    short_tail.extend_from_slice(&[0, 0, 0]);
    assert_eq!(Png::from_bytes(&short_tail), Err(PngError::TooShort { len: 3 }));
}

#[test]
fn corrupt_chunk_fails_the_whole_stream() {
    let mut bytes = sample_bytes();
    let last = bytes.len() - 1;
    bytes[last] ^= 0xff;
    assert!(matches!(Png::from_bytes(&bytes), Err(PngError::ChecksumMismatch { .. })));
}

#[test]
fn add_search_and_delete() {
    let mut png = Png::from_chunks(sample_chunks());
    png.add_chunk(Chunk::from_str("TeSt", "Message").unwrap());
    png.add_chunk(Chunk::from_str("TeSt", "Second").unwrap());
    assert_eq!(png.chunks().len(), 5);
    assert_eq!(png.search_chunk("TeSt").unwrap().data_str().unwrap(), "Message");
    let removed = png.delete_chunk("TeSt").unwrap();
    assert_eq!(removed.data_str().unwrap(), "Message");
    assert_eq!(png.search_chunk("TeSt").unwrap().data_str().unwrap(), "Second");
    let tags: Vec<&str> = png.chunks().iter().map(|c| c.chunk_type().str()).collect();
    assert_eq!(tags, vec!["FrSt", "miDl", "LASt", "TeSt"]);
}

#[test]
fn delete_keeps_order_of_the_rest() {
    let mut png = Png::from_chunks(sample_chunks());
    let removed = png.delete_chunk("miDl").unwrap();
    assert_eq!(removed.chunk_type().str(), "miDl");
    let tags: Vec<&str> = png.chunks().iter().map(|c| c.chunk_type().str()).collect();
    assert_eq!(tags, vec!["FrSt", "LASt"]);
}

#[test]
fn add_then_delete_restores_bytes() {
    let mut png = Png::from_bytes(&sample_bytes()).unwrap();
    let before = png.bytes();
    png.add_chunk(Chunk::from_str("RuSt", "hidden").unwrap());
    assert_ne!(png.bytes(), before);
    png.delete_chunk("RuSt").unwrap();
    assert_eq!(png.bytes(), before);
}

#[test]
fn absent_tag() {
    let mut png = Png::from_chunks(sample_chunks());
    assert!(png.search_chunk("NoNe").is_none());
    assert_eq!(png.delete_chunk("NoNe"), Err(PngError::ChunkNotFound));
    assert_eq!(png.chunks().len(), 3);
    assert!(png.search_chunk("frst").is_none());
}

#[test]
fn stream_text_has_one_line_per_chunk() {
    let png = Png::from_chunks(vec![Chunk::from_str("RuSt", "A").unwrap(), Chunk::from_str("IEND", "").unwrap()]);
    let first = png.chunks()[0].to_string();
    let expected = format!(
        "{}\nChunk: {{ Length: 0, ChunkType: {{ Bytes: [73, 69, 78, 68]}}, ChunkData: [], Crc: 2923585666}}\n",
        first
    );
    assert_eq!(png.to_string(), expected);
}
