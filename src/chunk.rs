//! Chunks: length-prefixed, typed, checksummed records.

use vstd::prelude::*;
use vstd::utf8::*;
use vstd::string::*;
use vstd::slice::slice_to_vec;
use crate::be::{be_bytes, be_u32, push_be_u32, read_be_u32, lemma_be_bytes_of_u32, lemma_be_u32_of_bytes};
use crate::chunk_type::{ChunkType, chunk_type_text, is_valid_tag, tag_from_bytes, utf8_text};
use crate::text::{byte_list, decimal, decimal_text, push_byte_list};
use crate::error::PngError;

verus! {

broadcast use vstd::utf8::group_utf8_lib;

/// The CRC-32 (IEEE polynomial, reflected, final XOR) of a byte sequence.
pub uninterp spec fn crc32_ieee(b: Seq<u8>) -> u32;

/// Relies on `crc::crc32::checksum_ieee`: the CRC-32 (IEEE) of the bytes,
/// which depends on the bytes alone.
#[verifier::external_body]
fn checksum(b: &[u8]) -> (r: u32)
    ensures
        r == crc32_ieee(b@),
{
    crc::crc32::checksum_ieee(b)
}

/// The contents of a chunk, as values.
pub struct ChunkView {
    /// The declared payload length.
    pub length: u32,
    /// The four tag bytes.
    pub tag: Seq<u8>,
    /// The payload.
    pub data: Seq<u8>,
    /// The stored CRC.
    pub crc: u32,
}

/// The chunk that fresh construction makes from a tag and a payload.
pub open spec fn fresh_chunk(tag: Seq<u8>, data: Seq<u8>) -> ChunkView {
    ChunkView { length: data.len() as u32, tag, data, crc: crc32_ieee(tag + data) }
}

/// The bytes of a chunk: length, tag, payload and CRC.
pub open spec fn chunk_bytes(c: ChunkView) -> Seq<u8> {
    be_bytes(c.length) + c.tag + c.data + be_bytes(c.crc)
}

/// What parsing `b` as one chunk yields. The payload runs from byte 8 to four
/// bytes before the end; the declared length is kept as it was read.
#[verifier::opaque]
pub open spec fn parse_chunk(b: Seq<u8>) -> Result<ChunkView, PngError> {
    if b.len() < 12 {
        Err(PngError::TooShort { len: b.len() as usize })
    } else {
        match tag_from_bytes(b.subrange(4, 8)) {
            Err(e) => Err(e),
            Ok(tag) => {
                if !is_valid_tag(tag) {
                    Err(PngError::InvalidTag)
                } else {
                    let stored = be_u32(b.subrange(b.len() - 4, b.len() as int));
                    let computed = crc32_ieee(b.subrange(4, b.len() - 4));
                    if stored != computed {
                        Err(PngError::ChecksumMismatch { stored, computed })
                    } else {
                        Ok(
                            ChunkView {
                                length: be_u32(b.subrange(0, 4)),
                                tag,
                                data: b.subrange(8, b.len() - 4),
                                crc: stored,
                            },
                        )
                    }
                }
            },
        }
    }
}

/// The view of a chunk result.
pub open spec fn chunk_result_view(r: Result<Chunk, PngError>) -> Result<ChunkView, PngError> {
    match r {
        Ok(c) => Ok(c@),
        Err(e) => Err(e),
    }
}

/// The text form of a chunk: its length, tag, payload bytes and CRC.
pub open spec fn chunk_text(c: ChunkView) -> Seq<char> {
    "Chunk: { Length: "@ + decimal(c.length as nat) + ", "@ + chunk_type_text(c.tag)
        + ", ChunkData: "@ + byte_list(c.data) + ", Crc: "@ + decimal(c.crc as nat) + "}"@
}

/// A chunk of a PNG stream.
#[derive(Debug, Clone, PartialEq, Eq)]
pub struct Chunk {
    m_length: u32,
    m_chunk_type: ChunkType,
    m_data: Vec<u8>,
    m_crc: u32,
}

impl View for Chunk {
    type V = ChunkView;

    closed spec fn view(&self) -> ChunkView {
        ChunkView {
            length: self.m_length,
            tag: self.m_chunk_type@,
            data: self.m_data@,
            crc: self.m_crc,
        }
    }
}

impl Chunk {
    /// Builds a chunk from a tag and a payload, computing length and CRC.
    pub fn new(chunk_type: ChunkType, data: Vec<u8>) -> (r: Chunk)
        requires
            data@.len() <= u32::MAX,
        ensures
            r@ == fresh_chunk(chunk_type@, data@),
    {
        let mut crc_bytes: Vec<u8> = slice_to_vec(chunk_type.bytes());
        let mut i: usize = 0;
        while i < data.len()
            invariant
                i <= data@.len(),
                crc_bytes@ == chunk_type@ + data@.subrange(0, i as int),
            decreases data@.len() - i,
        {
            crc_bytes.push(data[i]);
            i = i + 1;
            assert(crc_bytes@ =~= chunk_type@ + data@.subrange(0, i as int));
        }
        assert(data@.subrange(0, data@.len() as int) =~= data@);
        let m_crc = checksum(crc_bytes.as_slice());
        Chunk { m_length: data.len() as u32, m_chunk_type: chunk_type, m_data: data, m_crc }
    }

    /// Parses one chunk that fills `bytes` exactly.
    pub fn from_bytes(bytes: &[u8]) -> (r: Result<Chunk, PngError>)
        ensures
            chunk_result_view(r) == parse_chunk(bytes@),
    {
        reveal(parse_chunk);
        let n = bytes.len();
        if n < 12 {
            return Err(PngError::TooShort { len: n });
        }
        let m_length = read_be_u32(&bytes[0..4]);
        let m_chunk_type = match ChunkType::from_bytes(&bytes[4..8]) {
            Ok(t) => t,
            Err(e) => {
                return Err(e);
            },
        };
        if !m_chunk_type.is_valid() {
            return Err(PngError::InvalidTag);
        }
        let m_data = slice_to_vec(&bytes[8..n - 4]);
        let m_crc = read_be_u32(&bytes[n - 4..n]);
        let real_crc = checksum(&bytes[4..n - 4]);
        if m_crc != real_crc {
            return Err(PngError::ChecksumMismatch { stored: m_crc, computed: real_crc });
        }
        Ok(Chunk { m_length, m_chunk_type, m_data, m_crc })
    }

    /// Builds a chunk from tag text and payload text.
    pub fn from_str(chunk_type: &str, data: &str) -> (r: Result<Chunk, PngError>)
        requires
            data.spec_bytes().len() <= u32::MAX,
        ensures
            match tag_from_bytes(chunk_type.spec_bytes()) {
                Ok(tag) => r matches Ok(c) && c@ == fresh_chunk(tag, data.spec_bytes()),
                Err(e) => r == Err::<Chunk, PngError>(e),
            },
    {
        let m_chunk_type = match ChunkType::from_str(chunk_type) {
            Ok(t) => t,
            Err(e) => {
                return Err(e);
            },
        };
        let m_data = slice_to_vec(data.as_bytes());
        Ok(Chunk::new(m_chunk_type, m_data))
    }

    /// The declared payload length.
    pub fn length(&self) -> (r: u32)
        ensures
            r == self@.length,
    {
        self.m_length
    }

    /// The type tag.
    pub fn chunk_type(&self) -> (r: &ChunkType)
        ensures
            r@ == self@.tag,
    {
        &self.m_chunk_type
    }

    /// The payload bytes.
    pub fn data(&self) -> (r: &[u8])
        ensures
            r@ == self@.data,
    {
        self.m_data.as_slice()
    }

    /// The payload as text; fails unless it is valid UTF-8.
    pub fn data_str(&self) -> (r: Result<&str, PngError>)
        ensures
            r is Ok <==> valid_utf8(self@.data),
            r matches Ok(s) ==> s@ == decode_utf8(self@.data),
            r matches Err(e) ==> e == PngError::NotUtf8,
    {
        match utf8_text(self.m_data.as_slice()) {
            Some(s) => {
                proof {
                    decode_utf8_encode_utf8(self.m_data@);
                }
                Ok(s)
            },
            None => Err(PngError::NotUtf8),
        }
    }

    /// The stored CRC.
    pub fn crc(&self) -> (r: u32)
        ensures
            r == self@.crc,
    {
        self.m_crc
    }

    /// The human-readable form of the chunk.
    pub fn to_string(&self) -> (r: String)
        ensures
            r@ == chunk_text(self@),
    {
        let mut out = String::new();
        self.write_text(&mut out);
        assert(out@ =~= chunk_text(self@));
        out
    }

    /// Appends the human-readable form of the chunk to `out`.
    pub fn write_text(&self, out: &mut String)
        ensures
            final(out)@ == old(out)@ + chunk_text(self@),
    {
        out.append("Chunk: { Length: ");
        let length = decimal_text(self.m_length);
        out.append(length.as_str());
        out.append(", ");
        self.m_chunk_type.write_text(out);
        out.append(", ChunkData: ");
        push_byte_list(out, self.m_data.as_slice());
        out.append(", Crc: ");
        let crc = decimal_text(self.m_crc);
        out.append(crc.as_str());
        out.append("}");
        assert(out@ =~= old(out)@ + chunk_text(self@));
    }

    /// The chunk's bytes: length, tag, payload and CRC.
    pub fn bytes(&self) -> (r: Vec<u8>)
        ensures
            r@ == chunk_bytes(self@),
    {
        let mut out: Vec<u8> = Vec::new();
        self.write_to(&mut out);
        assert(out@ =~= chunk_bytes(self@));
        out
    }

    /// Appends the chunk's bytes to `out`.
    pub fn write_to(&self, out: &mut Vec<u8>)
        ensures
            final(out)@ == old(out)@ + chunk_bytes(self@),
    {
        push_be_u32(out, self.m_length);
        out.extend_from_slice(self.m_chunk_type.bytes());
        out.extend_from_slice(self.m_data.as_slice());
        push_be_u32(out, self.m_crc);
        assert(out@ =~= old(out)@ + chunk_bytes(self@));
    }
}

/// A chunk whose tag is valid and whose CRC covers its tag and payload parses
/// back from its bytes unchanged, whatever length it declares.
pub proof fn lemma_chunk_round_trip(c: ChunkView)
    requires
        is_valid_tag(c.tag),
        c.crc == crc32_ieee(c.tag + c.data),
    ensures
        parse_chunk(chunk_bytes(c)) == Ok::<ChunkView, PngError>(c),
{
    reveal(parse_chunk);
    let b = chunk_bytes(c);
    let n = b.len() as int;
    lemma_be_u32_of_bytes(c.length);
    lemma_be_u32_of_bytes(c.crc);
    assert(b.subrange(0, 4) =~= be_bytes(c.length));
    assert(b.subrange(4, 8) =~= c.tag);
    assert(b.subrange(8, n - 4) =~= c.data);
    assert(b.subrange(n - 4, n) =~= be_bytes(c.crc));
    assert(b.subrange(4, n - 4) =~= c.tag + c.data);
}

/// A chunk built fresh from a valid tag and a payload parses back from its
/// bytes with the same length, tag, payload and CRC.
pub proof fn lemma_fresh_chunk_round_trip(tag: Seq<u8>, data: Seq<u8>)
    requires
        is_valid_tag(tag),
        data.len() <= u32::MAX,
    ensures
        parse_chunk(chunk_bytes(fresh_chunk(tag, data))) == Ok::<ChunkView, PngError>(
            fresh_chunk(tag, data),
        ),
{
    lemma_chunk_round_trip(fresh_chunk(tag, data));
}

/// A chunk that parsing accepts has a valid tag and a CRC over its tag and
/// payload, and writing it out gives back the bytes it was read from.
pub proof fn lemma_parsed_chunk_bytes(b: Seq<u8>)
    requires
        parse_chunk(b) is Ok,
    ensures
        chunk_bytes(parse_chunk(b)->Ok_0) == b,
        is_valid_tag(parse_chunk(b)->Ok_0.tag),
        parse_chunk(b)->Ok_0.crc == crc32_ieee(
            parse_chunk(b)->Ok_0.tag + parse_chunk(b)->Ok_0.data,
        ),
        parse_chunk(b)->Ok_0.data.len() == b.len() - 12,
{
    reveal(parse_chunk);
    let c = parse_chunk(b)->Ok_0;
    let n = b.len() as int;
    lemma_be_bytes_of_u32(b.subrange(0, 4));
    lemma_be_bytes_of_u32(b.subrange(n - 4, n));
    assert(b.subrange(4, n - 4) =~= c.tag + c.data);
    assert(chunk_bytes(c) =~= b);
}

/// Once a chunk's tag or payload bytes are altered, keeping its length and
/// CRC fields, parsing accepts the record only if the CRC of the altered tag
/// and payload equals the stored one.
pub proof fn lemma_altered_chunk_needs_crc_collision(c: ChunkView, b: Seq<u8>)
    requires
        is_valid_tag(c.tag),
        c.crc == crc32_ieee(c.tag + c.data),
        b.len() == chunk_bytes(c).len(),
        b.subrange(0, 4) == chunk_bytes(c).subrange(0, 4),
        b.subrange(b.len() - 4, b.len() as int) == chunk_bytes(c).subrange(
            b.len() - 4,
            b.len() as int,
        ),
    ensures
        parse_chunk(b) is Ok ==> crc32_ieee(b.subrange(4, b.len() - 4)) == crc32_ieee(
            c.tag + c.data,
        ),
        is_valid_tag(b.subrange(4, 8)) && crc32_ieee(b.subrange(4, b.len() - 4)) != c.crc
            ==> parse_chunk(b) == Err::<ChunkView, PngError>(
            (PngError::ChecksumMismatch {
                stored: c.crc,
                computed: crc32_ieee(b.subrange(4, b.len() - 4)),
            }),
        ),
{
    reveal(parse_chunk);
    let n = b.len() as int;
    let cb = chunk_bytes(c);
    lemma_be_u32_of_bytes(c.crc);
    assert(cb.subrange(n - 4, n) =~= be_bytes(c.crc));
}

} // verus!
