use pngme::chunk_type::ChunkType;
use pngme::error::PngError;

#[test]
pub fn test_chunk_type_from_bytes() {
    let bytes: [u8; 4] = [82, 117, 83, 116];
    let chunk_type = ChunkType::from_bytes(&[82, 117, 83, 116]).unwrap();
    let ret_bytes: [u8; 4] = chunk_type.bytes().try_into().unwrap();
    assert_eq!(bytes, ret_bytes);
}

#[test]
pub fn test_chunk_type_from_str() {
    let s = "RuSt";
    let chunk_type = ChunkType::from_str("RuSt").unwrap();
    let ret_s = chunk_type.str();
    assert_eq!(s, ret_s);
}

#[test]
pub fn test_chunk_type_bytes_and_str() {
    let chunk_type_1 = ChunkType::from_bytes(&[82, 117, 83, 116]).unwrap();
    let chunk_type_2 = ChunkType::from_str("RuSt").unwrap();
    assert_eq!(chunk_type_1, chunk_type_2);
}

#[test]
pub fn test_chunk_type_bit_attributes() {
    let chunk_type = ChunkType::from_str("RuSt").unwrap();
    assert!(chunk_type.is_critical());

    let chunk_type = ChunkType::from_str("ruSt").unwrap();
    assert!(!chunk_type.is_critical());

    let chunk_type = ChunkType::from_str("RUSt").unwrap();
    assert!(chunk_type.is_public());

    let chunk_type = ChunkType::from_str("RuSt").unwrap();
    assert!(!chunk_type.is_public());

    let chunk_type = ChunkType::from_str("RuSt").unwrap();
    assert!(chunk_type.is_reserved_bit_valid());

    let chunk_type = ChunkType::from_str("Rust").unwrap();
    assert!(!chunk_type.is_reserved_bit_valid());

    let chunk_type = ChunkType::from_str("RuSt").unwrap();
    assert!(chunk_type.is_safe_to_copy());

    let chunk_type = ChunkType::from_str("RuST").unwrap();
    assert!(!chunk_type.is_safe_to_copy());
}

#[test]
pub fn test_chunk_type_validation() {
    let chunk_type = ChunkType::from_str("RuSt").unwrap();
    assert!(chunk_type.is_valid());

    let chunk_type = ChunkType::from_str("Rust").unwrap();
    assert!(!chunk_type.is_valid());

    let chunk_type_res = ChunkType::from_str("Ru1t");
    assert!(chunk_type_res.is_err());
}

#[test]
pub fn test_chunk_type_display() {
    let chunk_type: ChunkType = ChunkType::from_str("RuSt").unwrap();
    let _ = chunk_type.to_string();
}

#[test]
fn chunk_type_text_lists_its_bytes() {
    let chunk_type = ChunkType::from_str("RuSt").unwrap();
    assert_eq!(chunk_type.to_string(), "ChunkType: { Bytes: [82, 117, 83, 116]}");
}

#[test]
fn non_letter_in_any_position_is_refused() {
    for pos in 0..4 {
        let mut bytes: Vec<u8> = b"RuSt".to_vec();
        bytes[pos] = 0x31;
        assert_eq!(ChunkType::from_bytes(&bytes), Err(PngError::InvalidTypeBytes));
    }
    for b in [0x40u8, 0x5b, 0x60, 0x7b, 0x00, 0xff] {
        assert_eq!(ChunkType::from_bytes(&[b, b'u', b'S', b't']), Err(PngError::InvalidTypeBytes));
    }
    assert!(ChunkType::from_bytes(&[b'A', b'Z', b'a', b'z']).is_ok());
}

#[test]
fn tag_text_of_wrong_byte_count_is_refused() {
    assert_eq!(ChunkType::from_str("Rus"), Err(PngError::InvalidLength { len: 3 }));
    assert_eq!(ChunkType::from_str("RuStx"), Err(PngError::InvalidLength { len: 5 }));
    assert_eq!(ChunkType::from_str(""), Err(PngError::InvalidLength { len: 0 }));
    // Four characters, five bytes.
    assert_eq!(ChunkType::from_str("Ru\u{e9}t"), Err(PngError::InvalidLength { len: 5 }));
    assert_eq!(ChunkType::from_bytes(&[82, 117, 83]), Err(PngError::InvalidLength { len: 3 }));
}

#[test]
fn rust_tag_flags() {
    let t = ChunkType::from_bytes(&[82, 117, 83, 116]).unwrap();
    assert!(t.is_critical());
    assert!(!t.is_public());
    assert!(t.is_reserved_bit_valid());
    assert!(t.is_safe_to_copy());
    assert!(t.is_valid());
    let t = ChunkType::from_str("Rust").unwrap();
    assert!(!t.is_valid());
    let t = ChunkType::from_str("RuST").unwrap();
    assert!(!t.is_safe_to_copy());
    assert_eq!(t.str(), "RuST");
}
