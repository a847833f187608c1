//! A PNG stream at the chunk level: the signature and an ordered list of
//! chunks.

use vstd::prelude::*;
use vstd::string::*;
use crate::be::{be_bytes, be_u32, lemma_be_u32_of_bytes, read_be_u32};
use crate::chunk::{
    Chunk, ChunkView, chunk_bytes, chunk_text, crc32_ieee, lemma_chunk_round_trip, lemma_parsed_chunk_bytes,
    parse_chunk,
};
use crate::chunk_type::is_valid_tag;
use crate::error::PngError;

verus! {

/// The eight bytes that open every PNG stream.
pub open spec fn png_signature() -> Seq<u8> {
    seq![0x89u8, 0x50u8, 0x4Eu8, 0x47u8, 0x0Du8, 0x0Au8, 0x1Au8, 0x0Au8]
}

/// What parsing the bytes after the signature yields: the chunks in stream
/// order, or the first failure. Each record spans twelve bytes plus the
/// payload length it declares.
#[verifier::opaque]
pub open spec fn parse_chunks(b: Seq<u8>) -> Result<Seq<ChunkView>, PngError>
    decreases b.len(),
{
    if b.len() == 0 {
        Ok(Seq::empty())
    } else if b.len() < 12 {
        Err(PngError::TooShort { len: b.len() as usize })
    } else {
        let end = 12 + be_u32(b.subrange(0, 4)) as int;
        if end > b.len() {
            Err(PngError::TooShort { len: b.len() as usize })
        } else {
            match parse_chunk(b.subrange(0, end)) {
                Err(e) => Err(e),
                Ok(c) => match parse_chunks(b.subrange(end, b.len() as int)) {
                    Err(e) => Err(e),
                    Ok(rest) => Ok(seq![c] + rest),
                },
            }
        }
    }
}

/// What parsing a whole stream yields.
pub open spec fn parse_png(b: Seq<u8>) -> Result<Seq<ChunkView>, PngError> {
    if b.len() < 8 || b.subrange(0, 8) != png_signature() {
        Err(PngError::BadSignature)
    } else {
        parse_chunks(b.subrange(8, b.len() as int))
    }
}

/// The bytes of a list of chunks, one after another.
pub open spec fn chunks_bytes(cs: Seq<ChunkView>) -> Seq<u8>
    decreases cs.len(),
{
    if cs.len() == 0 {
        Seq::empty()
    } else {
        chunk_bytes(cs[0]) + chunks_bytes(cs.drop_first())
    }
}

/// The bytes of a stream: the signature, then each chunk in order.
pub open spec fn png_bytes(cs: Seq<ChunkView>) -> Seq<u8> {
    png_signature() + chunks_bytes(cs)
}

/// The text form of a stream: each chunk's text on a line of its own.
pub open spec fn png_text(cs: Seq<ChunkView>) -> Seq<char>
    decreases cs.len(),
{
    if cs.len() == 0 {
        Seq::empty()
    } else {
        png_text(cs.drop_last()) + chunk_text(cs.last()) + "\n"@
    }
}

/// Some chunk of `cs` carries tag `t`.
pub open spec fn has_tag(cs: Seq<ChunkView>, t: Seq<u8>) -> bool {
    exists|i: int| 0 <= i < cs.len() && #[trigger] cs[i].tag == t
}

/// `i` is the position of the first chunk of `cs` that carries tag `t`.
pub open spec fn is_first_with_tag(cs: Seq<ChunkView>, t: Seq<u8>, i: int) -> bool {
    &&& 0 <= i < cs.len()
    &&& cs[i].tag == t
    &&& forall|j: int| 0 <= j < i ==> #[trigger] cs[j].tag != t
}

/// The views of a list of chunks.
pub open spec fn views(cs: Seq<Chunk>) -> Seq<ChunkView> {
    cs.map_values(|c: Chunk| c@)
}

/// The view of a stream result.
pub open spec fn png_result_view(r: Result<Png, PngError>) -> Result<Seq<ChunkView>, PngError> {
    match r {
        Ok(p) => Ok(p@),
        Err(e) => Err(e),
    }
}

/// A prefix of chunks in front of what the rest of a parse yields.
pub open spec fn prepend(
    done: Seq<ChunkView>,
    rest: Result<Seq<ChunkView>, PngError>,
) -> Result<Seq<ChunkView>, PngError> {
    match rest {
        Ok(cs) => Ok(done + cs),
        Err(e) => Err(e),
    }
}

/// The eight signature bytes.
pub fn signature() -> (r: [u8; 8])
    ensures
        r@ == png_signature(),
{
    let r: [u8; 8] = [0x89u8, 0x50u8, 0x4Eu8, 0x47u8, 0x0Du8, 0x0Au8, 0x1Au8, 0x0Au8];
    assert(r@ =~= png_signature());
    r
}

/// A PNG stream: the signature and its chunks, in stream order.
#[derive(Debug, Clone, PartialEq, Eq)]
pub struct Png {
    m_chunks: Vec<Chunk>,
}

impl View for Png {
    type V = Seq<ChunkView>;

    closed spec fn view(&self) -> Seq<ChunkView> {
        views(self.m_chunks@)
    }
}

impl Png {
    /// A stream holding the given chunks, in the given order.
    pub fn from_chunks(chunks: Vec<Chunk>) -> (r: Png)
        ensures
            r@ == views(chunks@),
    {
        Png { m_chunks: chunks }
    }

    /// Parses a whole stream: the signature, then chunks until the end.
    pub fn from_bytes(bytes: &[u8]) -> (r: Result<Png, PngError>)
        ensures
            png_result_view(r) == parse_png(bytes@),
    {
        reveal_with_fuel(parse_chunks, 1);
        let n = bytes.len();
        let sig = signature();
        if n < 8 {
            return Err(PngError::BadSignature);
        }
        let mut k: usize = 0;
        while k < 8
            invariant
                k <= 8 <= n == bytes@.len(),
                sig@ == png_signature(),
                forall|j: int| 0 <= j < k ==> bytes@[j] == png_signature()[j],
            decreases 8 - k,
        {
            if bytes[k] != sig[k] {
                assert(bytes@.subrange(0, 8)[k as int] != png_signature()[k as int]);
                return Err(PngError::BadSignature);
            }
            k = k + 1;
        }
        assert(bytes@.subrange(0, 8) =~= png_signature());
        let mut chunks: Vec<Chunk> = Vec::new();
        let mut cursor: usize = 8;
        while cursor < n
            invariant
                8 <= cursor <= n == bytes@.len(),
                bytes@.subrange(0, 8) == png_signature(),
                parse_chunks(bytes@.subrange(8, n as int)) == prepend(
                    views(chunks@),
                    parse_chunks(bytes@.subrange(cursor as int, n as int)),
                ),
            decreases n - cursor,
        {
            proof {
                reveal_with_fuel(parse_chunks, 1);
            }
            let ghost rest = bytes@.subrange(cursor as int, n as int);
            let avail = n - cursor;
            if avail < 12 {
                return Err(PngError::TooShort { len: avail });
            }
            let declared = read_be_u32(&bytes[cursor..cursor + 4]);
            assert(bytes@.subrange(cursor as int, cursor + 4) =~= rest.subrange(0, 4));
            if declared as usize > avail - 12 {
                return Err(PngError::TooShort { len: avail });
            }
            let end = cursor + 12 + declared as usize;
            assert(bytes@.subrange(cursor as int, end as int) =~= rest.subrange(
                0,
                end - cursor,
            ));
            assert(bytes@.subrange(end as int, n as int) =~= rest.subrange(
                end - cursor,
                rest.len() as int,
            ));
            let chunk = match Chunk::from_bytes(&bytes[cursor..end]) {
                Ok(c) => c,
                Err(e) => {
                    return Err(e);
                },
            };
            let ghost before = views(chunks@);
            chunks.push(chunk);
            assert(views(chunks@) =~= before + seq![chunk@]);
            assert forall|t: Seq<ChunkView>|
                #![auto]
                (before + seq![chunk@]) + t =~= before + (seq![chunk@] + t) by {}
            cursor = end;
        }
        assert(bytes@.subrange(n as int, n as int) =~= Seq::<u8>::empty());
        assert(views(chunks@) + Seq::<ChunkView>::empty() =~= views(chunks@));
        Ok(Png { m_chunks: chunks })
    }

    /// The stream's bytes: the signature, then each chunk in order.
    pub fn bytes(&self) -> (r: Vec<u8>)
        ensures
            r@ == png_bytes(self@),
    {
        let sig = signature();
        let mut out: Vec<u8> = Vec::new();
        out.extend_from_slice(sig.as_slice());
        assert(out@ =~= png_signature());
        assert(self@.subrange(0, self@.len() as int) =~= self@);
        let mut i: usize = 0;
        while i < self.m_chunks.len()
            invariant
                i <= self.m_chunks@.len(),
                out@ + chunks_bytes(self@.subrange(i as int, self@.len() as int)) == png_bytes(
                    self@,
                ),
            decreases self.m_chunks@.len() - i,
        {
            let ghost tail = self@.subrange(i as int, self@.len() as int);
            assert(tail.drop_first() =~= self@.subrange(i + 1, self@.len() as int));
            self.m_chunks[i].write_to(&mut out);
            i = i + 1;
            assert(out@ + chunks_bytes(self@.subrange(i as int, self@.len() as int)) =~= png_bytes(
                self@,
            ));
        }
        assert(self@.subrange(i as int, self@.len() as int) =~= Seq::<ChunkView>::empty());
        assert(out@ =~= png_bytes(self@));
        out
    }

    /// The human-readable form of the stream: one line per chunk.
    pub fn to_string(&self) -> (r: String)
        ensures
            r@ == png_text(self@),
    {
        let mut out = String::new();
        let mut i: usize = 0;
        while i < self.m_chunks.len()
            invariant
                i <= self.m_chunks@.len() == self@.len(),
                out@ == png_text(self@.subrange(0, i as int)),
            decreases self.m_chunks@.len() - i,
        {
            let ghost before = self@.subrange(0, i as int);
            assert(self@.subrange(0, i + 1).drop_last() =~= before);
            self.m_chunks[i].write_text(&mut out);
            out.append("\n");
            i = i + 1;
        }
        assert(self@.subrange(0, i as int) =~= self@);
        out
    }

    /// The chunks, in stream order.
    pub fn chunks(&self) -> (r: &[Chunk])
        ensures
            views(r@) == self@,
    {
        self.m_chunks.as_slice()
    }

    /// Appends a chunk at the end of the stream.
    pub fn add_chunk(&mut self, chunk: Chunk)
        ensures
            final(self)@ == old(self)@.push(chunk@),
    {
        self.m_chunks.push(chunk);
        assert(views(self.m_chunks@) =~= views(old(self).m_chunks@).push(chunk@));
    }

    /// The position of the first chunk whose tag has the bytes of `chunk_type`.
    fn position(&self, chunk_type: &str) -> (r: Option<usize>)
        ensures
            match r {
                Some(i) => is_first_with_tag(self@, chunk_type.spec_bytes(), i as int),
                None => !has_tag(self@, chunk_type.spec_bytes()),
            },
    {
        let t = chunk_type.as_bytes();
        let mut i: usize = 0;
        while i < self.m_chunks.len()
            invariant
                i <= self.m_chunks@.len() == self@.len(),
                t@ == chunk_type.spec_bytes(),
                forall|j: int| 0 <= j < i ==> #[trigger] self@[j].tag != t@,
            decreases self.m_chunks@.len() - i,
        {
            if same_bytes(self.m_chunks[i].chunk_type().bytes(), t) {
                return Some(i);
            }
            i = i + 1;
        }
        None
    }

    /// The first chunk whose tag reads `chunk_type`, if any.
    pub fn search_chunk(&self, chunk_type: &str) -> (r: Option<&Chunk>)
        ensures
            match r {
                Some(c) => exists|i: int|
                    is_first_with_tag(self@, chunk_type.spec_bytes(), i) && c@ == #[trigger] self@[i],
                None => !has_tag(self@, chunk_type.spec_bytes()),
            },
    {
        match self.position(chunk_type) {
            Some(i) => Some(&self.m_chunks[i]),
            None => None,
        }
    }

    /// Removes and returns the first chunk whose tag reads `chunk_type`; the
    /// other chunks keep their order.
    pub fn delete_chunk(&mut self, chunk_type: &str) -> (r: Result<Chunk, PngError>)
        ensures
            match r {
                Ok(c) => exists|i: int|
                    is_first_with_tag(old(self)@, chunk_type.spec_bytes(), i) && c@ == #[trigger] old(
                        self,
                    )@[i] && final(self)@ == old(self)@.remove(i),
                Err(e) => e == PngError::ChunkNotFound && !has_tag(
                    old(self)@,
                    chunk_type.spec_bytes(),
                ) && final(self)@ == old(self)@,
            },
    {
        match self.position(chunk_type) {
            Some(i) => {
                let c = self.m_chunks.remove(i);
                assert(views(self.m_chunks@) =~= views(old(self).m_chunks@).remove(i as int));
                Ok(c)
            },
            None => Err(PngError::ChunkNotFound),
        }
    }
}

/// Whether two byte slices are equal.
fn same_bytes(a: &[u8], b: &[u8]) -> (r: bool)
    ensures
        r == (a@ == b@),
{
    if a.len() != b.len() {
        return false;
    }
    let mut i: usize = 0;
    while i < a.len()
        invariant
            i <= a@.len() == b@.len(),
            forall|j: int| 0 <= j < i ==> a@[j] == b@[j],
        decreases a@.len() - i,
    {
        if a[i] != b[i] {
            return false;
        }
        i = i + 1;
    }
    assert(a@ =~= b@);
    true
}

/// A chunk that parses back from its own bytes inside a stream: a valid tag,
/// a length that counts the payload, and a CRC over tag and payload.
pub open spec fn is_sound_chunk(c: ChunkView) -> bool {
    &&& is_valid_tag(c.tag)
    &&& c.length == c.data.len()
    &&& c.crc == crc32_ieee(c.tag + c.data)
}

/// Chunks that parsing accepts, written out again, give back the bytes they
/// were read from, and each of them is sound.
#[verifier::spinoff_prover]
pub proof fn lemma_parsed_chunks_bytes(b: Seq<u8>)
    requires
        parse_chunks(b) is Ok,
    ensures
        chunks_bytes(parse_chunks(b)->Ok_0) == b,
        forall|i: int|
            0 <= i < parse_chunks(b)->Ok_0.len() ==> is_sound_chunk(
                #[trigger] parse_chunks(b)->Ok_0[i],
            ),
    decreases b.len(),
{
    let cs = parse_chunks(b)->Ok_0;
    if b.len() == 0 {
        reveal_with_fuel(parse_chunks, 1);
        assert(cs =~= Seq::<ChunkView>::empty());
        assert(chunks_bytes(cs) =~= b);
    } else {
        lemma_parse_chunks_first(b);
        let end = 12 + be_u32(b.subrange(0, 4)) as int;
        let first = b.subrange(0, end);
        let rest = b.subrange(end, b.len() as int);
        let c = parse_chunk(first)->Ok_0;
        let tail = parse_chunks(rest)->Ok_0;
        lemma_parsed_chunk_bytes(first);
        lemma_parsed_chunks_bytes(rest);
        assert(cs.drop_first() =~= tail);
        assert(chunks_bytes(cs) == chunk_bytes(c) + chunks_bytes(tail));
        assert(chunks_bytes(cs) =~= b);
        assert(first.subrange(0, 4) =~= b.subrange(0, 4));
        assert forall|i: int| 0 <= i < cs.len() implies is_sound_chunk(#[trigger] cs[i]) by {
            if i > 0 {
                assert(cs[i] == tail[i - 1]);
            }
        }
    }
}

/// A non-empty run of bytes that parses starts with a record that parses,
/// and the rest parses to the remaining chunks.
proof fn lemma_parse_chunks_first(b: Seq<u8>)
    requires
        parse_chunks(b) is Ok,
        b.len() > 0,
    ensures
        ({
            let end = 12 + be_u32(b.subrange(0, 4)) as int;
            let first = b.subrange(0, end);
            let rest = b.subrange(end, b.len() as int);
            &&& 12 <= b.len()
            &&& end <= b.len()
            &&& parse_chunk(first) is Ok
            &&& parse_chunks(rest) is Ok
            &&& parse_chunks(b)->Ok_0 == seq![parse_chunk(first)->Ok_0] + parse_chunks(rest)->Ok_0
        }),
{
    reveal_with_fuel(parse_chunks, 1);
}

/// Parsing a stream and writing it out again reproduces the stream byte for
/// byte.
pub proof fn lemma_parsed_png_bytes(b: Seq<u8>)
    requires
        parse_png(b) is Ok,
    ensures
        png_bytes(parse_png(b)->Ok_0) == b,
{
    let rest = b.subrange(8, b.len() as int);
    assert(parse_png(b) == parse_chunks(rest));
    lemma_parsed_chunks_bytes(rest);
    assert(b.subrange(0, 8) + rest =~= b);
}

/// Writing out a stream that parsing produced and parsing it again yields the
/// same chunks.
pub proof fn lemma_png_round_trip(b: Seq<u8>)
    requires
        parse_png(b) is Ok,
    ensures
        parse_png(png_bytes(parse_png(b)->Ok_0)) == parse_png(b),
{
    lemma_parsed_png_bytes(b);
}

/// Sound chunks, written out one after another, parse back to themselves.
#[verifier::spinoff_prover]
pub proof fn lemma_chunks_round_trip(cs: Seq<ChunkView>)
    requires
        forall|i: int| 0 <= i < cs.len() ==> is_sound_chunk(#[trigger] cs[i]),
    ensures
        parse_chunks(chunks_bytes(cs)) == Ok::<Seq<ChunkView>, PngError>(cs),
    decreases cs.len(),
{
    if cs.len() == 0 {
        reveal_with_fuel(parse_chunks, 1);
        assert(cs =~= Seq::<ChunkView>::empty());
    } else {
        let c = cs[0];
        let rest = cs.drop_first();
        assert forall|i: int| 0 <= i < rest.len() implies is_sound_chunk(#[trigger] rest[i]) by {
            assert(rest[i] == cs[i + 1]);
        }
        assert(is_sound_chunk(c));
        lemma_chunks_round_trip(rest);
        lemma_chunk_round_trip(c);
        let b = chunk_bytes(c) + chunks_bytes(rest);
        assert(chunks_bytes(cs) == b);
        lemma_record_layout(c, chunks_bytes(rest));
        assert(seq![c] + rest =~= cs);
        lemma_parse_chunks_step(b, c, rest);
    }
}

/// Where the parts of a sound chunk's record, followed by other bytes, lie.
proof fn lemma_record_layout(c: ChunkView, tail: Seq<u8>)
    requires
        is_sound_chunk(c),
    ensures
        ({
            let b = chunk_bytes(c) + tail;
            let end = 12 + be_u32(b.subrange(0, 4)) as int;
            &&& b.len() >= 12
            &&& end == chunk_bytes(c).len() <= b.len()
            &&& b.subrange(0, end) == chunk_bytes(c)
            &&& b.subrange(end, b.len() as int) == tail
        }),
{
    let cb = chunk_bytes(c);
    let b = cb + tail;
    lemma_be_u32_of_bytes(c.length);
    assert(b.subrange(0, 4) =~= be_bytes(c.length));
    let end = cb.len() as int;
    assert(b.subrange(0, end) =~= cb);
    assert(b.subrange(end, b.len() as int) =~= tail);
}

/// One step of parsing: a first record that parses, followed by bytes that
/// parse, parse to the first chunk followed by the rest.
proof fn lemma_parse_chunks_step(b: Seq<u8>, c: ChunkView, rest: Seq<ChunkView>)
    requires
        b.len() >= 12,
        12 + be_u32(b.subrange(0, 4)) as int <= b.len(),
        parse_chunk(b.subrange(0, 12 + be_u32(b.subrange(0, 4)) as int)) == Ok::<
            ChunkView,
            PngError,
        >(c),
        parse_chunks(b.subrange(12 + be_u32(b.subrange(0, 4)) as int, b.len() as int)) == Ok::<
            Seq<ChunkView>,
            PngError,
        >(rest),
    ensures
        parse_chunks(b) == Ok::<Seq<ChunkView>, PngError>(seq![c] + rest),
{
    reveal_with_fuel(parse_chunks, 1);
}

/// A stream of sound chunks, written out, parses back to the same chunks.
pub proof fn lemma_sound_png_round_trip(cs: Seq<ChunkView>)
    requires
        forall|i: int| 0 <= i < cs.len() ==> is_sound_chunk(#[trigger] cs[i]),
    ensures
        parse_png(png_bytes(cs)) == Ok::<Seq<ChunkView>, PngError>(cs),
{
    lemma_chunks_round_trip(cs);
    let b = png_bytes(cs);
    assert(b.subrange(0, 8) =~= png_signature());
    assert(b.subrange(8, b.len() as int) =~= chunks_bytes(cs));
}

/// Appending a chunk whose tag no other chunk carries, then removing the first
/// chunk with that tag, removes the appended chunk and leaves the stream's
/// chunks, and so its bytes, as they were.
pub proof fn lemma_add_then_delete_restores(cs: Seq<ChunkView>, c: ChunkView)
    requires
        !has_tag(cs, c.tag),
    ensures
        is_first_with_tag(cs.push(c), c.tag, cs.len() as int),
        forall|i: int| #[trigger]
            is_first_with_tag(cs.push(c), c.tag, i) ==> i == cs.len() && cs.push(c)[i] == c
                && cs.push(c).remove(i) == cs && png_bytes(cs.push(c).remove(i)) == png_bytes(cs),
{
    let added = cs.push(c);
    assert forall|j: int| 0 <= j < cs.len() implies #[trigger] added[j].tag != c.tag by {
        assert(added[j] == cs[j]);
        if added[j].tag == c.tag {
            assert(cs[j].tag == c.tag);
        }
    }
    assert(added.remove(cs.len() as int) =~= cs);
}

/// A stream whose first eight bytes are not the signature is refused with
/// `BadSignature`, whatever follows.
pub proof fn lemma_bad_signature_rejected(b: Seq<u8>)
    requires
        b.len() < 8 || exists|i: int| 0 <= i < 8 && b[i] != #[trigger] png_signature()[i],
    ensures
        parse_png(b) == Err::<Seq<ChunkView>, PngError>(PngError::BadSignature),
{
    if b.len() >= 8 {
        let i = choose|i: int| 0 <= i < 8 && b[i] != #[trigger] png_signature()[i];
        assert(b.subrange(0, 8)[i] != png_signature()[i]);
    }
}

} // verus!
