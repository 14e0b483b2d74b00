//! The whole-file container: the fixed 8-byte signature followed by an
//! ordered sequence of chunks.
//!
//! Parsing is fail-fast: one bad chunk invalidates the whole file, and no
//! partial container is ever handed back. The chunk order is significant and
//! is preserved across append and remove.

use vstd::prelude::*;

use crate::chunk::Chunk;
use crate::chunk::ChunkModel;
use crate::chunk::ChunkParseError;
use crate::chunk::spec_parse_chunk;
use crate::chunk_type::ChunkType;
use crate::chunk_type::spec_type_valid;
use vstd::string::StringSliceAdditionalSpecFns;

verus! {

/// Why a byte buffer failed to parse as a container.
#[derive(Debug, Clone, Copy, PartialEq, Eq, Structural)]
pub enum PngParseError {
    /// The leading eight bytes are not the canonical signature.
    BadSignature,
    /// A chunk failed to parse; the container fails with it.
    InvalidChunk(ChunkParseError),
}

/// No chunk of the requested type is in the container.
#[derive(Debug, Clone, Copy, PartialEq, Eq)]
pub struct NotFound;

/// The canonical 8-byte file signature.
pub open spec fn spec_signature() -> Seq<u8> {
    seq![0x89u8, 0x50u8, 0x4eu8, 0x47u8, 0x0du8, 0x0au8, 0x1au8, 0x0au8]
}

/// The canonical 8-byte file signature, as bytes.
pub fn signature() -> (r: [u8; 8])
    ensures
        r@ == spec_signature(),
{
    let r: [u8; 8] = [0x89u8, 0x50u8, 0x4eu8, 0x47u8, 0x0du8, 0x0au8, 0x1au8, 0x0au8];
    proof {
        broadcast use vstd::array::group_array_axioms;

        assert(r@ =~= spec_signature());
    }
    r
}

/// Every chunk of the sequence fits the wire format.
pub open spec fn chunks_wf(cs: Seq<ChunkModel>) -> bool {
    forall|i: int| 0 <= i < cs.len() ==> (#[trigger] cs[i]).wf()
}

/// What parsing `b` from offset `i` as a run of chunks that exhausts the
/// buffer yields: the chunk models in file order, or the first chunk failure.
pub open spec fn spec_parse_chunks(b: Seq<u8>, i: int) -> Result<Seq<ChunkModel>, ChunkParseError>
    recommends
        0 <= i <= b.len(),
    decreases b.len() - i,
    when 0 <= i <= b.len()
    via spec_parse_chunks_decreases
{
    if i == b.len() {
        Ok(Seq::empty())
    } else {
        match spec_parse_chunk(b, i) {
            Err(e) => Err(e),
            Ok(c) => match spec_parse_chunks(b, i + 12 + c.data.len()) {
                Err(e) => Err(e),
                Ok(rest) => Ok(seq![c] + rest),
            },
        }
    }
}

/// A chunk parsed at offset `i` fits the wire format and lies, with its
/// 12 bytes of framing, inside the buffer.
pub proof fn lemma_parse_chunk_ok_bounds(b: Seq<u8>, i: int)
    requires
        0 <= i <= b.len(),
    ensures
        spec_parse_chunk(b, i) matches Ok(c) ==> c.wf() && i + 12 + c.data.len() <= b.len(),
{
}

#[via_fn]
proof fn spec_parse_chunks_decreases(b: Seq<u8>, i: int) {
    lemma_parse_chunk_ok_bounds(b, i);
}

/// What parsing a whole buffer as a container yields: the chunk models in
/// file order, or the first failure. The signature is checked before any
/// chunk is inspected.
pub open spec fn spec_parse_png(b: Seq<u8>) -> Result<Seq<ChunkModel>, PngParseError> {
    if b.len() < 8 || b.subrange(0, 8) != spec_signature() {
        Err(PngParseError::BadSignature)
    } else {
        match spec_parse_chunks(b, 8) {
            Ok(cs) => Ok(cs),
            Err(e) => Err(PngParseError::InvalidChunk(e)),
        }
    }
}

/// The wire bytes of a run of chunks, in file order.
pub open spec fn spec_chunks_wire(cs: Seq<ChunkModel>) -> Seq<u8>
    decreases cs.len(),
{
    if cs.len() == 0 {
        Seq::empty()
    } else {
        cs[0].wire() + spec_chunks_wire(cs.drop_first())
    }
}

/// The wire bytes of a whole container: the signature, then each chunk.
pub open spec fn spec_png_wire(cs: Seq<ChunkModel>) -> Seq<u8> {
    spec_signature() + spec_chunks_wire(cs)
}

/// Position `k` holds the first chunk of type `ty` in the sequence.
pub open spec fn is_first_of_type(cs: Seq<ChunkModel>, ty: Seq<u8>, k: int) -> bool {
    &&& 0 <= k < cs.len()
    &&& cs[k].ty == ty
    &&& forall|j: int| 0 <= j < k ==> (#[trigger] cs[j]).ty != ty
}

/// Some chunk of type `ty` is in the sequence.
pub open spec fn has_chunk_of_type(cs: Seq<ChunkModel>, ty: Seq<u8>) -> bool {
    exists|j: int| 0 <= j < cs.len() && (#[trigger] cs[j]).ty == ty
}

/// A container: the ordered chunk sequence behind the fixed signature.
#[derive(Debug)]
pub struct Png {
    chunks: Vec<Chunk>,
}

impl View for Png {
    type V = Seq<ChunkModel>;

    closed spec fn view(&self) -> Seq<ChunkModel> {
        self.chunks@.map_values(|c: Chunk| c@)
    }
}

impl Png {
    /// Every chunk of the container fits the wire format.
    pub open spec fn wf(self) -> bool {
        chunks_wf(self@)
    }

    /// Builds a container from a chunk sequence, kept in the given order.
    pub fn from_chunks(chunks: Vec<Chunk>) -> (r: Png)
        requires
            forall|i: int| 0 <= i < chunks@.len() ==> (#[trigger] chunks@[i]).wf(),
        ensures
            r@.len() == chunks@.len(),
            forall|i: int| 0 <= i < chunks@.len() ==> r@[i] == (#[trigger] chunks@[i])@,
            r.wf(),
    {
        let r = Png { chunks };
        assert forall|i: int| 0 <= i < r@.len() implies (#[trigger] r@[i]).wf() by {
            assert(r@[i] == r.chunks@[i]@);
        }
        r
    }

    /// Parses a whole buffer, exactly as `spec_parse_png` describes: the
    /// signature first, then chunks until the buffer is exhausted, failing
    /// fast on the first bad chunk.
    pub fn parse(buf: &[u8]) -> (r: Result<Png, PngParseError>)
        ensures
            match r {
                Ok(p) => spec_parse_png(buf@) == Ok::<Seq<ChunkModel>, PngParseError>(p@)
                    && p.wf(),
                Err(e) => spec_parse_png(buf@) == Err::<Seq<ChunkModel>, PngParseError>(e),
            },
    {
        let n = buf.len();
        if n < 8 {
            return Err(PngParseError::BadSignature);
        }
        let sig = signature();
        let mut j: usize = 0;
        while j < 8
            invariant
                0 <= j <= 8,
                8 <= buf@.len(),
                sig@ == spec_signature(),
                forall|t: int| 0 <= t < j ==> buf@[t] == spec_signature()[t],
            decreases 8 - j,
        {
            if buf[j] != sig[j] {
                proof {
                    broadcast use vstd::array::group_array_axioms;

                    assert(buf@.subrange(0, 8)[j as int] != spec_signature()[j as int]);
                }
                return Err(PngParseError::BadSignature);
            }
            j = j + 1;
        }
        assert(buf@.subrange(0, 8) =~= spec_signature());

        let mut chunks: Vec<Chunk> = Vec::new();
        let mut cursor: usize = 8;
        while cursor < n
            invariant
                8 <= cursor <= n,
                n == buf@.len(),
                buf@.subrange(0, 8) == spec_signature(),
                forall|i: int| 0 <= i < chunks@.len() ==> (#[trigger] chunks@[i]).wf(),
                match spec_parse_chunks(buf@, cursor as int) {
                    Ok(rest) => spec_parse_chunks(buf@, 8) == Ok::<Seq<ChunkModel>, ChunkParseError>(
                        chunks@.map_values(|c: Chunk| c@) + rest,
                    ),
                    Err(e) => spec_parse_chunks(buf@, 8) == Err::<Seq<ChunkModel>, ChunkParseError>(
                        e,
                    ),
                },
            decreases n - cursor,
        {
            let ghost models = chunks@.map_values(|c: Chunk| c@);
            let c = match Chunk::parse_at(buf, cursor) {
                Ok(c) => c,
                Err(e) => {
                    return Err(PngParseError::InvalidChunk(e));
                },
            };
            proof {
                lemma_parse_chunk_ok_bounds(buf@, cursor as int);
            }
            let size = 12 + c.length() as usize;
            chunks.push(c);
            proof {
                assert(chunks@.map_values(|c: Chunk| c@) =~= models.push(c@));
                assert forall|rest: Seq<ChunkModel>| true implies models.push(c@) + rest =~= models
                    + (seq![c@] + rest) by {}
            }
            cursor = cursor + size;
        }
        let p = Png { chunks };
        proof {
            assert(spec_parse_chunks(buf@, n as int) == Ok::<Seq<ChunkModel>, ChunkParseError>(
                Seq::empty(),
            ));
            assert(p@ + Seq::<ChunkModel>::empty() =~= p@);
            assert forall|i: int| 0 <= i < p@.len() implies (#[trigger] p@[i]).wf() by {
                assert(p@[i] == p.chunks@[i]@);
            }
        }
        Ok(p)
    }

    /// Appends a chunk at the end of the sequence. Duplicate types are legal
    /// and coexist.
    pub fn append_chunk(&mut self, chunk: Chunk)
        requires
            chunk.wf(),
            old(self).wf(),
        ensures
            final(self)@ == old(self)@.push(chunk@),
            final(self).wf(),
    {
        let ghost models = self@;
        self.chunks.push(chunk);
        proof {
            assert(self@ =~= models.push(chunk@));
        }
    }

    /// Returns the first chunk, in file order, whose type's encoded text
    /// equals `target`, or nothing when no chunk of that type is present.
    pub fn chunk_by_type(&self, target: &str) -> (r: Option<&Chunk>)
        ensures
            r is Some <==> has_chunk_of_type(self@, target.spec_bytes()),
            r matches Some(c) ==> exists|k: int|
                #[trigger] is_first_of_type(self@, target.spec_bytes(), k) && c@ == self@[k],
    {
        let encoded: &[u8] = target.as_bytes();
        let mut i: usize = 0;
        let n = self.chunks.len();
        while i < n
            invariant
                0 <= i <= n,
                n == self.chunks@.len(),
                encoded@ == target.spec_bytes(),
                forall|j: int| 0 <= j < i ==> (#[trigger] self@[j]).ty != encoded@,
            decreases n - i,
        {
            if tag_matches(self.chunks[i].chunk_type(), encoded) {
                assert(self@[i as int].ty == encoded@);
                assert(is_first_of_type(self@, target.spec_bytes(), i as int));
                return Some(&self.chunks[i]);
            }
            assert(self@[i as int].ty != encoded@);
            i = i + 1;
        }
        None
    }

    /// Removes and returns the first chunk, in file order, whose type's
    /// encoded text equals `target`; fails when no chunk of that type is
    /// present. The relative order of the remaining chunks is untouched.
    pub fn remove_chunk(&mut self, target: &str) -> (r: Result<Chunk, NotFound>)
        requires
            old(self).wf(),
        ensures
            r is Ok <==> has_chunk_of_type(old(self)@, target.spec_bytes()),
            r matches Ok(c) ==> exists|k: int|
                #[trigger] is_first_of_type(old(self)@, target.spec_bytes(), k) && c@ == old(
                    self,
                )@[k] && final(self)@ == old(self)@.remove(k),
            r is Err ==> final(self)@ == old(self)@,
            final(self).wf(),
    {
        let encoded: &[u8] = target.as_bytes();
        let mut i: usize = 0;
        let n = self.chunks.len();
        while i < n
            invariant
                0 <= i <= n,
                n == self.chunks@.len(),
                *self == *old(self),
                old(self).wf(),
                encoded@ == target.spec_bytes(),
                forall|j: int| 0 <= j < i ==> (#[trigger] self@[j]).ty != encoded@,
            decreases n - i,
        {
            if tag_matches(self.chunks[i].chunk_type(), encoded) {
                let ghost models = self@;
                assert(is_first_of_type(self@, target.spec_bytes(), i as int));
                let c = self.chunks.remove(i);
                proof {
                    assert(self@ =~= models.remove(i as int));
                    models.remove_ensures(i as int);
                    assert forall|t: int| 0 <= t < self@.len() implies (#[trigger] self@[t]).wf()
                        by {
                        if t < i {
                            assert(self@[t] == models[t]);
                        } else {
                            assert(self@[t] == models[t + 1]);
                        }
                    }
                }
                return Ok(c);
            }
            i = i + 1;
        }
        Err(NotFound)
    }

    /// Serializes the whole container: the signature, then each chunk's wire
    /// bytes in file order. The exact inverse of `parse`.
    pub fn as_bytes(&self) -> (r: Vec<u8>)
        requires
            self.wf(),
        ensures
            r@ == spec_png_wire(self@),
    {
        let sig = signature();
        let mut out: Vec<u8> = Vec::new();
        out.push(sig[0]);
        out.push(sig[1]);
        out.push(sig[2]);
        out.push(sig[3]);
        out.push(sig[4]);
        out.push(sig[5]);
        out.push(sig[6]);
        out.push(sig[7]);
        proof {
            broadcast use vstd::array::group_array_axioms;

            assert(out@ =~= spec_signature());
            assert(self@.take(0) =~= Seq::<ChunkModel>::empty());
        }
        let n = self.chunks.len();
        let mut i: usize = 0;
        while i < n
            invariant
                0 <= i <= n,
                n == self.chunks@.len(),
                self.wf(),
                out@ == spec_signature() + spec_chunks_wire(self@.take(i as int)),
            decreases n - i,
        {
            assert(self@[i as int] == self.chunks@[i as int]@);
            assert(self@[i as int].wf());
            let mut piece = self.chunks[i].as_bytes();
            out.append(&mut piece);
            proof {
                lemma_chunks_wire_snoc(self@.take(i as int), self@[i as int]);
                assert(self@.take(i as int).push(self@[i as int]) =~= self@.take(i + 1));
                assert(out@ =~= spec_signature() + spec_chunks_wire(self@.take(i + 1)));
            }
            i = i + 1;
        }
        proof {
            assert(self@.take(n as int) =~= self@);
        }
        out
    }
}

/// The tag's bytes equal the given encoded text.
fn tag_matches(t: &ChunkType, encoded: &[u8]) -> (r: bool)
    ensures
        r == (t@ == encoded@),
{
    proof {
        crate::chunk_type::lemma_chunk_type_len(*t);
    }
    if encoded.len() != 4 {
        return false;
    }
    let tb = t.bytes();
    proof {
        broadcast use vstd::array::group_array_axioms;

    }
    let r = tb[0] == encoded[0] && tb[1] == encoded[1] && tb[2] == encoded[2] && tb[3]
        == encoded[3];
    proof {
        if r {
            assert(t@ =~= encoded@);
        } else {
            assert(t@ != encoded@);
        }
    }
    r
}

/// Every chunk of the sequence has a structurally valid tag.
pub open spec fn chunks_types_valid(cs: Seq<ChunkModel>) -> bool {
    forall|i: int| 0 <= i < cs.len() ==> spec_type_valid((#[trigger] cs[i]).ty)
}

/// A run of chunks with valid tags parses back from its own wire bytes: when
/// the bytes of `b` from offset `i` onward are exactly the run's wire bytes,
/// parsing from `i` yields exactly that run.
pub proof fn lemma_parse_chunks_of_wire(b: Seq<u8>, i: int, cs: Seq<ChunkModel>)
    requires
        0 <= i <= b.len(),
        chunks_wf(cs),
        chunks_types_valid(cs),
        b.subrange(i, b.len() as int) == spec_chunks_wire(cs),
    ensures
        spec_parse_chunks(b, i) == Ok::<Seq<ChunkModel>, ChunkParseError>(cs),
    decreases cs.len(),
{
    if cs.len() == 0 {
        assert(spec_chunks_wire(cs) == Seq::<u8>::empty());
        assert(b.subrange(i, b.len() as int).len() == 0);
        assert(cs =~= Seq::<ChunkModel>::empty());
    } else {
        let c = cs[0];
        let rest = cs.drop_first();
        let len = c.data.len() as int;
        crate::chunk::lemma_wire_len(c);
        let suffix = b.subrange(i, b.len() as int);
        assert(suffix.len() == 12 + len + spec_chunks_wire(rest).len());
        assert forall|k: int| 0 <= k < 12 + len implies b.subrange(i, i + 12 + len)[k]
            == c.wire()[k] by {
            assert(suffix[k] == b[i + k]);
            assert(b.subrange(i, i + 12 + len)[k] == b[i + k]);
            assert(suffix[k] == c.wire()[k]);
        }
        assert(b.subrange(i, i + 12 + len) =~= c.wire());
        crate::chunk::lemma_parse_chunk_of_wire(b, i, c);

        let next = i + 12 + len;
        assert forall|k: int| 0 <= k < b.len() - next implies b.subrange(next, b.len() as int)[k]
            == spec_chunks_wire(rest)[k] by {
            assert(suffix[12 + len + k] == b[next + k]);
            assert(b.subrange(next, b.len() as int)[k] == b[next + k]);
            assert(suffix[12 + len + k] == spec_chunks_wire(rest)[12 + len + k - (12 + len)]);
        }
        assert(b.subrange(next, b.len() as int) =~= spec_chunks_wire(rest));
        assert forall|t: int| 0 <= t < rest.len() implies (#[trigger] rest[t]).wf()
            && spec_type_valid(rest[t].ty) by {
            assert(rest[t] == cs[t + 1]);
        }
        lemma_parse_chunks_of_wire(b, next, rest);
        assert(seq![c] + rest =~= cs);
    }
}

/// Chunks handed back by the parser are well formed and carry valid tags, so
/// the round-trip law applies to every parsed container.
pub proof fn lemma_parsed_chunks_valid(b: Seq<u8>, i: int)
    requires
        0 <= i <= b.len(),
    ensures
        spec_parse_chunks(b, i) matches Ok(cs) ==> chunks_wf(cs) && chunks_types_valid(cs),
    decreases b.len() - i,
{
    if let Ok(cs) = spec_parse_chunks(b, i) {
        if i == b.len() {
        } else {
            if let Ok(c) = spec_parse_chunk(b, i) {
                lemma_parse_chunk_ok_bounds(b, i);
                let next = i + 12 + c.data.len();
                lemma_parsed_chunks_valid(b, next);
                if let Ok(rest) = spec_parse_chunks(b, next) {
                    assert(cs == seq![c] + rest);
                    assert forall|t: int| 0 <= t < cs.len() implies (#[trigger] cs[t]).wf()
                        && spec_type_valid(cs[t].ty) by {
                        if t == 0 {
                            assert(cs[t] == c);
                        } else {
                            assert(cs[t] == rest[t - 1]);
                        }
                    }
                }
            }
        }
    }
}

/// The inverse direction chunk by chunk: a run of chunks parsed from bytes
/// serializes back to those very bytes.
pub proof fn lemma_parse_chunks_wire_inverse(b: Seq<u8>, i: int)
    requires
        0 <= i <= b.len(),
    ensures
        spec_parse_chunks(b, i) matches Ok(cs) ==> spec_chunks_wire(cs) == b.subrange(
            i,
            b.len() as int,
        ),
    decreases b.len() - i,
{
    if let Ok(cs) = spec_parse_chunks(b, i) {
        if i == b.len() {
            assert(spec_chunks_wire(cs) == Seq::<u8>::empty());
            assert(b.subrange(i, b.len() as int) =~= Seq::<u8>::empty());
        } else {
            if let Ok(c) = spec_parse_chunk(b, i) {
                lemma_parse_chunk_ok_bounds(b, i);
                crate::chunk::lemma_parse_chunk_wire_inverse(b, i);
                let next = i + 12 + c.data.len();
                lemma_parse_chunks_wire_inverse(b, next);
                if let Ok(rest) = spec_parse_chunks(b, next) {
                    assert(cs == seq![c] + rest);
                    assert(cs[0] == c);
                    assert(cs.drop_first() =~= rest);
                    assert(spec_chunks_wire(cs) == c.wire() + spec_chunks_wire(rest));
                    assert(c.wire() + spec_chunks_wire(rest) =~= b.subrange(i, b.len() as int));
                }
            }
        }
    }
}

/// The container invariant in the other direction: a parsed container
/// serializes back to the very bytes it was parsed from.
pub proof fn lemma_png_serialize_of_parse(b: Seq<u8>)
    ensures
        spec_parse_png(b) matches Ok(cs) ==> spec_png_wire(cs) == b,
{
    if let Ok(cs) = spec_parse_png(b) {
        assert(b.len() >= 8 && b.subrange(0, 8) == spec_signature());
        lemma_parse_chunks_wire_inverse(b, 8);
        assert(spec_chunks_wire(cs) == b.subrange(8, b.len() as int));
        assert forall|k: int| 0 <= k < b.len() implies spec_png_wire(cs)[k] == b[k] by {
            if k < 8 {
                assert(spec_png_wire(cs)[k] == spec_signature()[k]);
                assert(spec_signature()[k] == b.subrange(0, 8)[k]);
            } else {
                assert(spec_png_wire(cs)[k] == spec_chunks_wire(cs)[k - 8]);
                assert(b.subrange(8, b.len() as int)[k - 8] == b[k]);
            }
        }
        assert(spec_png_wire(cs) =~= b);
    }
}

/// Round trip: a container whose chunks all carry valid tags parses back from
/// its own wire bytes with an identical chunk sequence.
#[verifier::rlimit(50)]
pub proof fn lemma_png_round_trip(cs: Seq<ChunkModel>)
    requires
        chunks_wf(cs),
        chunks_types_valid(cs),
    ensures
        spec_parse_png(spec_png_wire(cs)) == Ok::<Seq<ChunkModel>, PngParseError>(cs),
{
    let b = spec_png_wire(cs);
    assert(spec_signature().len() == 8);
    assert(b.len() >= 8);
    assert forall|k: int| 0 <= k < 8 implies b.subrange(0, 8)[k] == spec_signature()[k] by {
        assert(b[k] == spec_signature()[k]);
    }
    assert(b.subrange(0, 8) =~= spec_signature());
    assert forall|k: int| 0 <= k < b.len() - 8 implies b.subrange(8, b.len() as int)[k]
        == spec_chunks_wire(cs)[k] by {
        assert(b[8 + k] == spec_chunks_wire(cs)[k]);
        assert(b.subrange(8, b.len() as int)[k] == b[8 + k]);
    }
    assert(b.subrange(8, b.len() as int) =~= spec_chunks_wire(cs));
    lemma_parse_chunks_of_wire(b, 8, cs);
}

/// Appending one chunk to a run appends its wire bytes to the run's wire
/// bytes.
pub proof fn lemma_chunks_wire_snoc(cs: Seq<ChunkModel>, c: ChunkModel)
    ensures
        spec_chunks_wire(cs.push(c)) == spec_chunks_wire(cs) + c.wire(),
    decreases cs.len(),
{
    if cs.len() == 0 {
        let empty = Seq::<ChunkModel>::empty();
        assert(cs.push(c).drop_first() =~= empty);
        assert(spec_chunks_wire(empty) == Seq::<u8>::empty());
        assert(cs.push(c)[0] == c);
        assert(spec_chunks_wire(cs.push(c)) == c.wire() + Seq::<u8>::empty());
        assert(c.wire() + Seq::<u8>::empty() =~= c.wire());
        assert(spec_chunks_wire(cs) + c.wire() =~= c.wire());
    } else {
        assert(cs.push(c).drop_first() =~= cs.drop_first().push(c));
        lemma_chunks_wire_snoc(cs.drop_first(), c);
        assert(cs.push(c)[0] == cs[0]);
        assert(spec_chunks_wire(cs.push(c)) == cs[0].wire() + (spec_chunks_wire(cs.drop_first())
            + c.wire()));
        assert(cs[0].wire() + (spec_chunks_wire(cs.drop_first()) + c.wire()) =~= (cs[0].wire()
            + spec_chunks_wire(cs.drop_first())) + c.wire());
    }
}

} // verus!
