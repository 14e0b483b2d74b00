//! A single chunk: a 4-byte type tag, an opaque payload, and the CRC-32
//! checksum over tag and payload.
//!
//! On the wire a chunk is `length (4 bytes, big-endian) || tag (4 bytes) ||
//! payload (length bytes) || crc (4 bytes, big-endian)`, where the checksum
//! covers tag and payload. Parsing recomputes the checksum and treats a
//! mismatch as a hard failure, never a warning.

use vstd::prelude::*;

use crate::bytes::read_u32_be;
use crate::bytes::push_u32_be;
use crate::bytes::u32_be_bytes;
use crate::bytes::u32_from_be;
use crate::bytes::lemma_u32_be_round_trip;
use crate::bytes::lemma_u32_from_be_injective;
use crate::chunk_type::ChunkType;
use crate::chunk_type::InvalidUtf8;
use crate::chunk_type::lemma_chunk_type_len;
use crate::chunk_type::spec_type_valid;
use crate::crc32::crc32_iso_hdlc;
use crate::crc32::crc32_of;
use crate::utf8::string_from_bytes;
use vstd::utf8::decode_utf8;
use vstd::utf8::valid_utf8;

verus! {

/// Why a byte buffer failed to parse as a chunk.
#[derive(Debug, Clone, Copy, PartialEq, Eq, Structural)]
pub enum ChunkParseError {
    /// Fewer than eight bytes: not even length and tag can be read.
    TooShort,
    /// The tag is not structurally valid.
    InvalidType,
    /// The declared payload length does not fit the remaining bytes.
    TruncatedData,
    /// The stored checksum disagrees with the one recomputed over tag and
    /// payload.
    ChecksumMismatch,
}

/// The mathematical content of a chunk: its tag bytes and payload bytes.
/// Length and checksum are functions of these two.
#[verifier::ext_equal]
pub ghost struct ChunkModel {
    pub ty: Seq<u8>,
    pub data: Seq<u8>,
}

impl ChunkModel {
    /// The model describes a chunk that fits the wire format: a 4-byte tag and
    /// a payload whose length fits the 32-bit length field.
    pub open spec fn wf(self) -> bool {
        &&& self.ty.len() == 4
        &&& self.data.len() <= u32::MAX
    }

    /// The checksum of the chunk: CRC-32 over tag then payload.
    pub open spec fn crc(self) -> u32 {
        crc32_of(self.ty + self.data)
    }

    /// The wire bytes of the chunk: big-endian length, tag, payload, and
    /// big-endian checksum.
    pub open spec fn wire(self) -> Seq<u8> {
        u32_be_bytes(self.data.len() as u32) + self.ty + self.data + u32_be_bytes(self.crc())
    }
}

/// What parsing the bytes of `b` from offset `i` as one chunk yields: the
/// chunk's model, or the first failure in wire order. Bytes past the declared
/// extent of the chunk are left for the caller.
pub open spec fn spec_parse_chunk(b: Seq<u8>, i: int) -> Result<ChunkModel, ChunkParseError>
    recommends
        0 <= i <= b.len(),
{
    if b.len() - i < 8 {
        Err(ChunkParseError::TooShort)
    } else {
        let len = u32_from_be(b[i], b[i + 1], b[i + 2], b[i + 3]) as int;
        let ty = b.subrange(i + 4, i + 8);
        if !spec_type_valid(ty) {
            Err(ChunkParseError::InvalidType)
        } else if len + 12 > b.len() - i {
            Err(ChunkParseError::TruncatedData)
        } else {
            let data = b.subrange(i + 8, i + 8 + len);
            let stored = u32_from_be(b[i + 8 + len], b[i + 9 + len], b[i + 10 + len], b[i + 11 + len]);
            if stored != crc32_of(ty + data) {
                Err(ChunkParseError::ChecksumMismatch)
            } else {
                Ok(ChunkModel { ty, data })
            }
        }
    }
}

/// A chunk: an immutable value owning its tag and payload.
#[derive(Debug)]
pub struct Chunk {
    chunk_type: ChunkType,
    data: Vec<u8>,
}

impl View for Chunk {
    type V = ChunkModel;

    closed spec fn view(&self) -> ChunkModel {
        ChunkModel { ty: self.chunk_type@, data: self.data@ }
    }
}

impl Chunk {
    /// The chunk fits the wire format.
    pub open spec fn wf(self) -> bool {
        self@.wf()
    }

    /// Builds a chunk from a tag and a payload. Infallible: length and
    /// checksum are derived from the two parts.
    pub fn new(chunk_type: ChunkType, data: Vec<u8>) -> (r: Chunk)
        requires
            data@.len() <= u32::MAX,
        ensures
            r@ == (ChunkModel { ty: chunk_type@, data: data@ }),
            r.wf(),
    {
        proof {
            lemma_chunk_type_len(chunk_type);
        }
        Chunk { chunk_type, data }
    }

    /// The payload length, as carried by the wire length field.
    pub fn length(&self) -> (r: u32)
        requires
            self.wf(),
        ensures
            r == self@.data.len(),
    {
        self.data.len() as u32
    }

    /// The chunk's tag.
    pub fn chunk_type(&self) -> (r: &ChunkType)
        ensures
            r@ == self@.ty,
    {
        &self.chunk_type
    }

    /// The chunk's payload.
    pub fn data(&self) -> (r: &[u8])
        ensures
            r@ == self@.data,
    {
        self.data.as_slice()
    }

    /// The chunk's checksum, recomputed over tag and payload.
    pub fn crc(&self) -> (r: u32)
        ensures
            r == self@.crc(),
    {
        crc_over(&self.chunk_type, self.data.as_slice())
    }

    /// The payload rendered as text; fails when it is not valid UTF-8.
    pub fn data_as_string(&self) -> (r: Result<String, InvalidUtf8>)
        ensures
            r is Ok <==> valid_utf8(self@.data),
            r matches Ok(s) ==> s@ == decode_utf8(self@.data),
    {
        let mut raw: Vec<u8> = Vec::new();
        raw.extend_from_slice(self.data.as_slice());
        assert(raw@ =~= self@.data);
        match string_from_bytes(raw) {
            Some(s) => Ok(s),
            None => Err(InvalidUtf8),
        }
    }

    /// Serializes the chunk to its wire bytes: big-endian length, tag,
    /// payload, big-endian checksum.
    pub fn as_bytes(&self) -> (r: Vec<u8>)
        requires
            self.wf(),
        ensures
            r@ == self@.wire(),
    {
        let mut out: Vec<u8> = Vec::new();
        push_u32_be(&mut out, self.data.len() as u32);
        let tag = self.chunk_type.bytes();
        out.push(tag[0]);
        out.push(tag[1]);
        out.push(tag[2]);
        out.push(tag[3]);
        proof {
            broadcast use vstd::array::group_array_axioms;

            assert(tag@ =~= self@.ty);
        }
        out.extend_from_slice(self.data.as_slice());
        let crc = self.crc();
        push_u32_be(&mut out, crc);
        assert(out@ =~= self@.wire());
        out
    }

    /// Parses the leading bytes of `buf` as one chunk, exactly as
    /// `spec_parse_chunk` describes: the result is the parsed chunk, or the
    /// first failure in wire order.
    pub fn parse(buf: &[u8]) -> (r: Result<Chunk, ChunkParseError>)
        ensures
            match r {
                Ok(c) => spec_parse_chunk(buf@, 0) == Ok::<ChunkModel, ChunkParseError>(c@)
                    && c.wf(),
                Err(e) => spec_parse_chunk(buf@, 0) == Err::<ChunkModel, ChunkParseError>(e),
            },
    {
        Self::parse_at(buf, 0)
    }

    /// Parses one chunk at offset `i` of `buf`; the workhorse behind both
    /// `Chunk::parse` and the container parser.
    pub(crate) fn parse_at(buf: &[u8], i: usize) -> (r: Result<Chunk, ChunkParseError>)
        requires
            i <= buf@.len(),
        ensures
            match r {
                Ok(c) => spec_parse_chunk(buf@, i as int) == Ok::<ChunkModel, ChunkParseError>(c@)
                    && c.wf(),
                Err(e) => spec_parse_chunk(buf@, i as int) == Err::<
                    ChunkModel,
                    ChunkParseError,
                >(e),
            },
    {
        proof {
            broadcast use vstd::array::group_array_axioms;

        }
        let n = buf.len();
        if n - i < 8 {
            return Err(ChunkParseError::TooShort);
        }
        let length = read_u32_be(buf, i);
        let tag = ChunkType::parse_bytes([buf[i + 4], buf[i + 5], buf[i + 6], buf[i + 7]]);
        assert(tag@ =~= buf@.subrange(i + 4, i + 8));
        if !tag.is_valid() {
            return Err(ChunkParseError::InvalidType);
        }
        let avail = n - i;
        if avail < 12 || length as usize > avail - 12 {
            return Err(ChunkParseError::TruncatedData);
        }
        let len = length as usize;
        let mut data: Vec<u8> = Vec::new();
        let mut k: usize = 0;
        while k < len
            invariant
                0 <= k <= len,
                n == buf@.len(),
                i + 12 + len <= n,
                data@ =~= buf@.subrange(i + 8, i + 8 + k),
            decreases len - k,
        {
            data.push(buf[i + 8 + k]);
            k = k + 1;
        }
        assert(data@ =~= buf@.subrange(i as int + 8, i + 8 + len as int));
        let stored = read_u32_be(buf, i + 8 + len);
        let computed = crc_over(&tag, data.as_slice());
        if stored != computed {
            return Err(ChunkParseError::ChecksumMismatch);
        }
        let c = Chunk { chunk_type: tag, data };
        assert(spec_parse_chunk(buf@, i as int) == Ok::<ChunkModel, ChunkParseError>(c@));
        Ok(c)
    }
}

/// The wire bytes of a chunk are 12 framing bytes plus its payload.
pub proof fn lemma_wire_len(c: ChunkModel)
    requires
        c.wf(),
    ensures
        c.wire().len() == 12 + c.data.len(),
{
}

/// A chunk with a valid tag parses back from its own wire bytes wherever they
/// stand in a buffer: parsing at their offset yields exactly that chunk.
pub proof fn lemma_parse_chunk_of_wire(b: Seq<u8>, i: int, c: ChunkModel)
    requires
        0 <= i,
        c.wf(),
        spec_type_valid(c.ty),
        i + 12 + c.data.len() <= b.len(),
        b.subrange(i, i + 12 + c.data.len()) == c.wire(),
    ensures
        spec_parse_chunk(b, i) == Ok::<ChunkModel, ChunkParseError>(c),
{
    let len = c.data.len() as int;
    let len32 = c.data.len() as u32;
    let w = c.wire();
    let sub = b.subrange(i, i + 12 + len);
    lemma_wire_len(c);
    assert forall|k: int| 0 <= k < 12 + len implies b[i + k] == #[trigger] w[k] by {
        assert(sub[k] == b[i + k]);
    }

    // The length field decodes to the payload length.
    assert(w[0] == u32_be_bytes(len32)[0]);
    assert(w[1] == u32_be_bytes(len32)[1]);
    assert(w[2] == u32_be_bytes(len32)[2]);
    assert(w[3] == u32_be_bytes(len32)[3]);
    lemma_u32_be_round_trip(len32);
    assert(u32_from_be(b[i], b[i + 1], b[i + 2], b[i + 3]) == len32);

    // The tag and payload read back verbatim.
    assert forall|k: int| 0 <= k < 4 implies b.subrange(i + 4, i + 8)[k] == c.ty[k] by {
        assert(b[i + (4 + k)] == w[4 + k]);
        assert(w[4 + k] == c.ty[k]);
    }
    assert(b.subrange(i + 4, i + 8) =~= c.ty);
    assert forall|k: int| 0 <= k < len implies b.subrange(i + 8, i + 8 + len)[k] == c.data[k] by {
        assert(b[i + (8 + k)] == w[8 + k]);
        assert(w[8 + k] == c.data[k]);
    }
    assert(b.subrange(i + 8, i + 8 + len) =~= c.data);

    // The stored checksum decodes to the recomputed one.
    let crc = c.crc();
    assert(b[i + (8 + len)] == w[8 + len] && w[8 + len] == u32_be_bytes(crc)[0]);
    assert(b[i + (9 + len)] == w[9 + len] && w[9 + len] == u32_be_bytes(crc)[1]);
    assert(b[i + (10 + len)] == w[10 + len] && w[10 + len] == u32_be_bytes(crc)[2]);
    assert(b[i + (11 + len)] == w[11 + len] && w[11 + len] == u32_be_bytes(crc)[3]);
    lemma_u32_be_round_trip(crc);
    assert(u32_from_be(b[i + 8 + len], b[i + 9 + len], b[i + 10 + len], b[i + 11 + len]) == crc);

    assert(spec_parse_chunk(b, i) matches Ok(m) && m =~= c);
}

/// The inverse direction: a chunk parsed at offset `i` serializes back to
/// exactly the bytes it was parsed from.
pub proof fn lemma_parse_chunk_wire_inverse(b: Seq<u8>, i: int)
    requires
        0 <= i <= b.len(),
    ensures
        spec_parse_chunk(b, i) matches Ok(c) ==> i + 12 + c.data.len() <= b.len() && c.wire()
            == b.subrange(i, i + 12 + c.data.len()),
{
    if let Ok(c) = spec_parse_chunk(b, i) {
        let len32 = u32_from_be(b[i], b[i + 1], b[i + 2], b[i + 3]);
        let len = len32 as int;
        assert(c.ty == b.subrange(i + 4, i + 8));
        assert(c.data == b.subrange(i + 8, i + 8 + len));
        assert(c.data.len() == len);

        // The length field re-encodes verbatim.
        crate::bytes::lemma_u32_be_encode_decode(b[i], b[i + 1], b[i + 2], b[i + 3]);
        assert(u32_be_bytes(len32) == seq![b[i], b[i + 1], b[i + 2], b[i + 3]]);

        // The stored checksum is the recomputed one, and re-encodes verbatim.
        let stored = u32_from_be(b[i + 8 + len], b[i + 9 + len], b[i + 10 + len], b[i + 11 + len]);
        assert(stored == c.crc());
        crate::bytes::lemma_u32_be_encode_decode(
            b[i + 8 + len],
            b[i + 9 + len],
            b[i + 10 + len],
            b[i + 11 + len],
        );
        assert(u32_be_bytes(c.crc()) == seq![
            b[i + 8 + len],
            b[i + 9 + len],
            b[i + 10 + len],
            b[i + 11 + len],
        ]);

        assert(c.wire() =~= b.subrange(i, i + 12 + len));
    }
}

/// A chunk parses back from exactly its own wire bytes with identical tag,
/// payload, length and checksum, provided its tag is structurally valid.
pub proof fn lemma_chunk_round_trip(c: ChunkModel)
    requires
        c.wf(),
        spec_type_valid(c.ty),
    ensures
        spec_parse_chunk(c.wire(), 0) == Ok::<ChunkModel, ChunkParseError>(c),
{
    lemma_wire_len(c);
    assert(c.wire().subrange(0, 12 + c.data.len() as int) =~= c.wire());
    lemma_parse_chunk_of_wire(c.wire(), 0, c);
}

/// The checksum is a pure function of tag and payload: chunks built from
/// equal tags and equal payloads carry equal checksums.
pub proof fn lemma_crc_deterministic(a: ChunkModel, b: ChunkModel)
    requires
        a.ty == b.ty,
        a.data == b.data,
    ensures
        a.crc() == b.crc(),
{
}

/// Flipping any single byte of the stored checksum field of a serialized
/// chunk makes parsing fail with a checksum mismatch.
pub proof fn lemma_crc_byte_flip_rejected(c: ChunkModel, b: Seq<u8>, j: int)
    requires
        c.wf(),
        spec_type_valid(c.ty),
        b.len() == c.wire().len(),
        8 + c.data.len() <= j < b.len(),
        b[j] != c.wire()[j],
        forall|k: int| 0 <= k < b.len() && k != j ==> b[k] == c.wire()[k],
    ensures
        spec_parse_chunk(b, 0) == Err::<ChunkModel, ChunkParseError>(
            ChunkParseError::ChecksumMismatch,
        ),
{
    let len = c.data.len() as int;
    let len32 = c.data.len() as u32;
    let w = c.wire();
    lemma_wire_len(c);

    // The length field, tag and payload lie before the flipped byte, so they
    // read back verbatim.
    assert(b[0] == w[0] && w[0] == u32_be_bytes(len32)[0]);
    assert(b[1] == w[1] && w[1] == u32_be_bytes(len32)[1]);
    assert(b[2] == w[2] && w[2] == u32_be_bytes(len32)[2]);
    assert(b[3] == w[3] && w[3] == u32_be_bytes(len32)[3]);
    lemma_u32_be_round_trip(len32);
    assert(u32_from_be(b[0], b[1], b[2], b[3]) == len32);
    assert forall|k: int| 0 <= k < 4 implies b.subrange(4, 8)[k] == c.ty[k] by {
        assert(b[4 + k] == w[4 + k]);
        assert(w[4 + k] == c.ty[k]);
    }
    assert(b.subrange(4, 8) =~= c.ty);
    assert forall|k: int| 0 <= k < len implies b.subrange(8, 8 + len)[k] == c.data[k] by {
        assert(b[8 + k] == w[8 + k]);
        assert(w[8 + k] == c.data[k]);
    }
    assert(b.subrange(8, 8 + len) =~= c.data);

    // The stored checksum field differs from the serialized one in the
    // flipped byte, and big-endian decoding is injective, so the stored
    // checksum cannot equal the recomputed one.
    let crc = c.crc();
    assert(w[8 + len] == u32_be_bytes(crc)[0]);
    assert(w[9 + len] == u32_be_bytes(crc)[1]);
    assert(w[10 + len] == u32_be_bytes(crc)[2]);
    assert(w[11 + len] == u32_be_bytes(crc)[3]);
    lemma_u32_be_round_trip(crc);
    let stored = u32_from_be(b[8 + len], b[9 + len], b[10 + len], b[11 + len]);
    if stored == crc {
        lemma_u32_from_be_injective(
            b[8 + len],
            b[9 + len],
            b[10 + len],
            b[11 + len],
            w[8 + len],
            w[9 + len],
            w[10 + len],
            w[11 + len],
        );
        assert(b[j] == w[j]);
        assert(false);
    }
}

/// The checksum over a tag and a payload: CRC-32 of the tag bytes followed by
/// the payload bytes.
fn crc_over(chunk_type: &ChunkType, data: &[u8]) -> (r: u32)
    ensures
        r == crc32_of(chunk_type@ + data@),
{
    let mut buf: Vec<u8> = Vec::new();
    let tag = chunk_type.bytes();
    buf.push(tag[0]);
    buf.push(tag[1]);
    buf.push(tag[2]);
    buf.push(tag[3]);
    proof {
        broadcast use vstd::array::group_array_axioms;

        assert(tag@ =~= chunk_type@);
    }
    buf.extend_from_slice(data);
    assert(buf@ =~= chunk_type@ + data@);
    crc32_iso_hdlc(buf.as_slice())
}

} // verus!
