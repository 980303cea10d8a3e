use vstd::prelude::*;

verus! {

use crate::chunk::Chunk;
use crate::chunk::ChunkView;
use crate::chunk::lemma_read_chunk_serialized;
use crate::chunk::read_chunk;
use crate::chunk::spec_read_chunk;
use crate::chunk_type::ChunkType;
use crate::chunk_type::spec_text_code;
use crate::error::PngError;

/// The fixed 8-byte signature that begins every container.
pub open spec fn spec_signature() -> Seq<u8> {
    seq![0x89u8, 0x50, 0x4e, 0x47, 0x0d, 0x0a, 0x1a, 0x0a]
}

/// The header code, `IHDR`.
pub open spec fn spec_header_code() -> Seq<u8> {
    seq![0x49u8, 0x48, 0x44, 0x52]
}

/// The trailer code, `IEND`.
pub open spec fn spec_trailer_code() -> Seq<u8> {
    seq![0x49u8, 0x45, 0x4e, 0x44]
}

/// Parses a whole chunk stream: every record in order until the bytes are
/// exhausted, or the first record-level failure.
pub open spec fn spec_parse_chunks(b: Seq<u8>) -> Result<Seq<ChunkView>, PngError>
    decreases b.len(),
{
    if b.len() == 0 {
        Ok(Seq::empty())
    } else {
        match spec_read_chunk(b) {
            Err(e) => Err(e),
            Ok((cv, n)) => match spec_parse_chunks(b.skip(n)) {
                Err(e) => Err(e),
                Ok(rest) => Ok(seq![cv] + rest),
            },
        }
    }
}

/// The structural rules: at least one record, the first carrying the header
/// code and the last the trailer code.
pub open spec fn spec_structured(cs: Seq<ChunkView>) -> bool {
    cs.len() > 0 && cs[0].type_code == spec_header_code() && cs[cs.len()
        - 1].type_code == spec_trailer_code()
}

/// Parses a whole container: the signature, then records until the bytes are
/// exhausted, then the structural rules. Any failure yields no container.
pub open spec fn spec_parse_png(b: Seq<u8>) -> Result<Seq<ChunkView>, PngError> {
    if b.len() < 8 || b.subrange(0, 8) != spec_signature() {
        Err(PngError::SignatureMismatch)
    } else {
        match spec_parse_chunks(b.skip(8)) {
            Err(e) => Err(e),
            Ok(cs) => if spec_structured(cs) {
                Ok(cs)
            } else {
                Err(PngError::StructuralInvariantViolation)
            },
        }
    }
}

/// The byte rendering of a record sequence, record by record.
pub open spec fn spec_serialize_chunks(cs: Seq<ChunkView>) -> Seq<u8>
    decreases cs.len(),
{
    if cs.len() == 0 {
        Seq::empty()
    } else {
        cs[0].serialized() + spec_serialize_chunks(cs.drop_first())
    }
}

/// The byte rendering of a container: the signature, then every record.
pub open spec fn spec_serialize_png(cs: Seq<ChunkView>) -> Seq<u8> {
    spec_signature() + spec_serialize_chunks(cs)
}

/// The record views held in a record sequence, in order.
pub open spec fn chunk_views(cs: Seq<Chunk>) -> Seq<ChunkView> {
    Seq::new(cs.len(), |i: int| cs[i]@)
}

/// `cs[i]` is the first record carrying `code`.
pub open spec fn spec_first_match(cs: Seq<ChunkView>, code: Seq<u8>, i: int) -> bool {
    &&& 0 <= i < cs.len()
    &&& cs[i].type_code == code
    &&& forall|j: int| 0 <= j < i ==> (#[trigger] cs[j]).type_code != code
}

/// No record of `cs` carries the code the text names, or the text is not a
/// 4-letter code at all.
pub open spec fn spec_no_match(cs: Seq<ChunkView>, text: Seq<char>) -> bool {
    match spec_text_code(text) {
        Some(code) => forall|i: int| 0 <= i < cs.len() ==> (#[trigger] cs[i]).type_code != code,
        None => true,
    }
}

/// Rendering distributes over concatenation of record sequences.
pub proof fn lemma_serialize_chunks_append(a: Seq<ChunkView>, b: Seq<ChunkView>)
    ensures
        spec_serialize_chunks(a + b) == spec_serialize_chunks(a) + spec_serialize_chunks(b),
    decreases a.len(),
{
    if a.len() == 0 {
        assert(a + b =~= b);
        assert(spec_serialize_chunks(a) + spec_serialize_chunks(b) =~= spec_serialize_chunks(b));
    } else {
        assert((a + b).drop_first() =~= a.drop_first() + b);
        lemma_serialize_chunks_append(a.drop_first(), b);
        assert((a + b)[0] == a[0]);
        assert(spec_serialize_chunks(a + b) =~= spec_serialize_chunks(a) + spec_serialize_chunks(
            b,
        ));
    }
}

/// Parsing the rendering of well-formed records yields them back, in order.
pub proof fn lemma_parse_serialize_chunks(cs: Seq<ChunkView>)
    requires
        forall|i: int| 0 <= i < cs.len() ==> (#[trigger] cs[i]).wf(),
    ensures
        spec_parse_chunks(spec_serialize_chunks(cs)) == Ok::<_, PngError>(cs),
    decreases cs.len(),
{
    if cs.len() == 0 {
        assert(cs =~= Seq::<ChunkView>::empty());
        assert(spec_serialize_chunks(cs).len() == 0);
    } else {
        let b = spec_serialize_chunks(cs);
        let tail = spec_serialize_chunks(cs.drop_first());
        lemma_read_chunk_serialized(cs[0], tail);
        let n = cs[0].serialized().len() as int;
        assert(b == cs[0].serialized() + tail);
        assert(b.len() >= 12);
        assert(b.skip(n) =~= tail);
        lemma_parse_serialize_chunks(cs.drop_first());
        assert(seq![cs[0]] + cs.drop_first() =~= cs);
    }
}

/// The container-level round trip: parsing the rendering of a valid
/// container yields the same record sequence, in order.
pub proof fn lemma_png_round_trip(cs: Seq<ChunkView>)
    requires
        forall|i: int| 0 <= i < cs.len() ==> (#[trigger] cs[i]).wf(),
        spec_structured(cs),
    ensures
        spec_parse_png(spec_serialize_png(cs)) == Ok::<_, PngError>(cs),
{
    let b = spec_serialize_png(cs);
    assert(b.subrange(0, 8) =~= spec_signature());
    assert(b.skip(8) =~= spec_serialize_chunks(cs));
    lemma_parse_serialize_chunks(cs);
}

fn has_signature(bytes: &[u8]) -> (r: bool)
    ensures
        r == (bytes@.len() >= 8 && bytes@.subrange(0, 8) == spec_signature()),
{
    if bytes.len() < 8 {
        return false;
    }
    let ok = bytes[0] == 0x89 && bytes[1] == 0x50 && bytes[2] == 0x4e && bytes[3] == 0x47
        && bytes[4] == 0x0d && bytes[5] == 0x0a && bytes[6] == 0x1a && bytes[7] == 0x0a;
    proof {
        let s = bytes@.subrange(0, 8);
        if ok {
            assert(s =~= spec_signature());
        } else {
            if s == spec_signature() {
                assert(bytes@[0] == s[0] && bytes@[1] == s[1] && bytes@[2] == s[2] && bytes@[3]
                    == s[3] && bytes@[4] == s[4] && bytes@[5] == s[5] && bytes@[6] == s[6]
                    && bytes@[7] == s[7]);
                assert(false);
            }
        }
    }
    ok
}

/// The whole-file container: the ordered record sequence between the
/// signature and the end of the file.
#[derive(Debug)]
pub struct Png {
    pub chunks: Vec<Chunk>,
}

impl View for Png {
    type V = Seq<ChunkView>;

    open spec fn view(&self) -> Seq<ChunkView> {
        chunk_views(self.chunks@)
    }
}

impl Png {
    /// Every held record is well formed.
    pub open spec fn wf(self) -> bool {
        forall|i: int| 0 <= i < self.chunks@.len() ==> (#[trigger] self.chunks@[i]).wf()
    }

    /// Parses a complete byte buffer into a container. Construction is all
    /// or nothing: any record failure or broken structural rule yields the
    /// failure and no container.
    #[verifier::loop_isolation(false)]
    pub fn parse(bytes: &[u8]) -> (r: Result<Png, PngError>)
        ensures
            match r {
                Ok(p) => p.wf() && spec_parse_png(bytes@) == Ok::<_, PngError>(p@),
                Err(e) => spec_parse_png(bytes@) == Err::<Seq<ChunkView>, _>(e),
            },
    {
        if !has_signature(bytes) {
            return Err(PngError::SignatureMismatch);
        }
        let mut chunks: Vec<Chunk> = Vec::new();
        let mut off: usize = 8;
        proof {
            assert(chunk_views(chunks@) + spec_parse_chunks(bytes@.skip(8)).unwrap()
                =~= spec_parse_chunks(bytes@.skip(8)).unwrap());
        }
        while off < bytes.len()
            invariant
                8 <= off <= bytes@.len(),
                forall|i: int| 0 <= i < chunks@.len() ==> (#[trigger] chunks@[i]).wf(),
                match spec_parse_chunks(bytes@.skip(off as int)) {
                    Ok(rest) => spec_parse_chunks(bytes@.skip(8)) == Ok::<_, PngError>(
                        chunk_views(chunks@) + rest,
                    ),
                    Err(e) => spec_parse_chunks(bytes@.skip(8)) == Err::<Seq<ChunkView>, _>(e),
                },
            decreases bytes@.len() - off,
        {
            match read_chunk(bytes, off) {
                Err(e) => {
                    return Err(e);
                },
                Ok((c, end)) => {
                    proof {
                        let here = bytes@.skip(off as int);
                        assert(here.len() > 0);
                        assert(here.skip(end - off) =~= bytes@.skip(end as int));
                    }
                    let ghost prev = chunks@;
                    let ghost cv = c@;
                    chunks.push(c);
                    proof {
                        match spec_parse_chunks(bytes@.skip(end as int)) {
                            Ok(rest) => {
                                assert(chunk_views(chunks@) + rest =~= chunk_views(prev) + (seq![
                                    cv,
                                ] + rest));
                            },
                            Err(e) => {},
                        }
                    }
                    off = end;
                },
            }
        }
        proof {
            assert(bytes@.skip(off as int) =~= Seq::<u8>::empty());
            assert(chunk_views(chunks@) + Seq::<ChunkView>::empty() =~= chunk_views(chunks@));
        }
        if chunks.len() == 0 {
            return Err(PngError::StructuralInvariantViolation);
        }
        let fc = chunks[0].chunk_type.bytes();
        let first_ok = fc[0] == 0x49 && fc[1] == 0x48 && fc[2] == 0x44 && fc[3] == 0x52;
        let lc = chunks[chunks.len() - 1].chunk_type.bytes();
        let last_ok = lc[0] == 0x49 && lc[1] == 0x45 && lc[2] == 0x4e && lc[3] == 0x44;
        let ghost cs = chunk_views(chunks@);
        proof {
            if first_ok {
                assert(cs[0].type_code =~= spec_header_code());
            } else {
                assert(cs[0].type_code != spec_header_code());
            }
            if last_ok {
                assert(cs[cs.len() - 1].type_code =~= spec_trailer_code());
            } else {
                assert(cs[cs.len() - 1].type_code != spec_trailer_code());
            }
        }
        if first_ok && last_ok {
            Ok(Png { chunks })
        } else {
            Err(PngError::StructuralInvariantViolation)
        }
    }

    /// The container's byte rendering: the signature, then every record in
    /// order.
    #[verifier::loop_isolation(false)]
    pub fn as_bytes(&self) -> (r: Vec<u8>)
        requires
            self.wf(),
        ensures
            r@ == spec_serialize_png(self@),
    {
        let mut out: Vec<u8> = Vec::new();
        out.push(0x89);
        out.push(0x50);
        out.push(0x4e);
        out.push(0x47);
        out.push(0x0d);
        out.push(0x0a);
        out.push(0x1a);
        out.push(0x0a);
        proof {
            assert(out@ =~= spec_signature());
            assert(spec_serialize_chunks(self@.take(0)) =~= Seq::<u8>::empty());
            assert(out@ + Seq::<u8>::empty() =~= out@);
        }
        let mut i: usize = 0;
        while i < self.chunks.len()
            invariant
                0 <= i <= self.chunks@.len(),
                self.wf(),
                out@ == spec_signature() + spec_serialize_chunks(self@.take(i as int)),
            decreases self.chunks@.len() - i,
        {
            let mut cb = self.chunks[i].as_bytes();
            out.append(&mut cb);
            proof {
                let cs = self@;
                lemma_serialize_chunks_append(cs.take(i as int), seq![cs[i as int]]);
                assert(cs.take(i as int) + seq![cs[i as int]] =~= cs.take(i + 1));
                assert(seq![cs[i as int]].drop_first() =~= Seq::<ChunkView>::empty());
                assert(spec_serialize_chunks(Seq::<ChunkView>::empty()) =~= Seq::<u8>::empty());
                assert(spec_serialize_chunks(seq![cs[i as int]]) =~= cs[i as int].serialized()
                    + Seq::<u8>::empty());
                assert(cs[i as int].serialized() + Seq::<u8>::empty() =~= cs[
                    i as int
                ].serialized());
                assert(out@ =~= spec_signature() + spec_serialize_chunks(cs.take(i + 1)));
            }
            i += 1;
        }
        proof {
            assert(self@.take(self.chunks@.len() as int) =~= self@);
        }
        out
    }

    /// Appends a record at the end of the sequence. The caller chooses
    /// whether and how to keep the trailer last.
    pub fn append_chunk(&mut self, chunk: Chunk)
        requires
            old(self).wf(),
            chunk.wf(),
        ensures
            final(self).wf(),
            final(self)@ == old(self)@.push(chunk@),
    {
        self.chunks.push(chunk);
        proof {
            assert(self@ =~= old(self)@.push(chunk@));
        }
    }

    /// Inserts a record just before the last one, so that a trailer in last
    /// place stays last.
    pub fn insert_before_trailer(&mut self, chunk: Chunk)
        requires
            old(self).wf(),
            chunk.wf(),
            old(self)@.len() > 0,
        ensures
            final(self).wf(),
            final(self)@ == old(self)@.insert(old(self)@.len() - 1, chunk@),
    {
        let last = match self.chunks.pop() {
            Some(c) => c,
            None => vstd::pervasive::unreached(),
        };
        self.chunks.push(chunk);
        self.chunks.push(last);
        proof {
            assert(self@ =~= old(self)@.insert(old(self)@.len() - 1, chunk@));
        }
    }

    /// The first record, in sequence order, whose type code the text names;
    /// `None` when the text is not a 4-letter code or no record matches.
    #[verifier::loop_isolation(false)]
    pub fn chunk_by_type(&self, chunk_type: &str) -> (r: Option<&Chunk>)
        ensures
            match r {
                Some(c) => {
                    &&& spec_text_code(chunk_type@) is Some
                    &&& exists|i: int|
                        #[trigger] spec_first_match(self@, spec_text_code(chunk_type@).unwrap(), i)
                            && *c == self.chunks@[i]
                },
                None => spec_no_match(self@, chunk_type@),
            },
    {
        let code = match ChunkType::from_text(chunk_type) {
            Ok(t) => t,
            Err(_) => {
                return None;
            },
        };
        let mut k: usize = 0;
        while k < self.chunks.len()
            invariant
                0 <= k <= self.chunks@.len(),
                spec_text_code(chunk_type@) == Some(code@),
                forall|j: int| 0 <= j < k ==> (#[trigger] self@[j]).type_code != code@,
            decreases self.chunks@.len() - k,
        {
            if self.chunks[k].chunk_type.eq_bytes(&code) {
                let c = &self.chunks[k];
                proof {
                    assert(self@[k as int].type_code == code@);
                    assert(spec_first_match(self@, spec_text_code(chunk_type@).unwrap(), k as int));
                    assert(*c == self.chunks@[k as int]);
                    assert(exists|i: int|
                        #[trigger] spec_first_match(self@, spec_text_code(chunk_type@).unwrap(), i)
                            && *c == self.chunks@[i]);
                }
                return Some(c);
            }
            k += 1;
        }
        None
    }

    /// Removes and returns the first record whose type code the text names;
    /// fails with NotFound, changing nothing, when the text is not a
    /// 4-letter code or no record matches.
    #[verifier::loop_isolation(false)]
    pub fn remove_chunk(&mut self, chunk_type: &str) -> (r: Result<Chunk, PngError>)
        requires
            old(self).wf(),
        ensures
            final(self).wf(),
            match r {
                Ok(c) => {
                    &&& spec_text_code(chunk_type@) is Some
                    &&& exists|i: int|
                        {
                            &&& #[trigger] spec_first_match(
                                old(self)@,
                                spec_text_code(chunk_type@).unwrap(),
                                i,
                            )
                            &&& c == old(self).chunks@[i]
                            &&& final(self)@ == old(self)@.remove(i)
                        }
                },
                Err(e) => {
                    &&& e == PngError::NotFound
                    &&& final(self).chunks@ == old(self).chunks@
                    &&& spec_no_match(old(self)@, chunk_type@)
                },
            },
    {
        let code = match ChunkType::from_text(chunk_type) {
            Ok(t) => t,
            Err(_) => {
                return Err(PngError::NotFound);
            },
        };
        let mut k: usize = 0;
        while k < self.chunks.len()
            invariant
                0 <= k <= self.chunks@.len(),
                self.chunks@ == old(self).chunks@,
                forall|j: int| 0 <= j < k ==> (#[trigger] self@[j]).type_code != code@,
            decreases self.chunks@.len() - k,
        {
            if self.chunks[k].chunk_type.eq_bytes(&code) {
                proof {
                    assert(self@ == old(self)@);
                    assert(self@[k as int].type_code == code@);
                    assert(spec_first_match(old(self)@, spec_text_code(chunk_type@).unwrap(), k as int));
                }
                let c = self.chunks.remove(k);
                proof {
                    assert(self@ =~= old(self)@.remove(k as int));
                    assert forall|i: int| 0 <= i < self.chunks@.len() implies (
                    #[trigger] self.chunks@[i]).wf() by {
                        if i < k {
                            assert(self.chunks@[i] == old(self).chunks@[i]);
                        } else {
                            assert(self.chunks@[i] == old(self).chunks@[i + 1]);
                        }
                    }
                    assert(exists|i: int|
                        {
                            &&& #[trigger] spec_first_match(
                                old(self)@,
                                spec_text_code(chunk_type@).unwrap(),
                                i,
                            )
                            &&& c == old(self).chunks@[i]
                            &&& self@ == old(self)@.remove(i)
                        });
                }
                return Ok(c);
            }
            k += 1;
        }
        Err(PngError::NotFound)
    }

    /// A read-only view of the records, in order.
    pub fn chunks(&self) -> (r: &Vec<Chunk>)
        ensures
            r@ == self.chunks@,
            chunk_views(r@) == self@,
    {
        &self.chunks
    }
}

} // verus!
