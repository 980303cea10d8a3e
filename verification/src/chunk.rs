use vstd::prelude::*;

verus! {

use crate::chunk_type::ChunkType;
use crate::chunk_type::is_code_bytes;
use crate::codec::crc32_checksum;
use crate::codec::crc32_of;
use crate::codec::lemma_u32_be_inverse;
use crate::codec::lemma_u32_be_round_trip;
use crate::codec::push_u32_be;
use crate::codec::read_u32_be;
use crate::codec::spec_u32_from_be;
use crate::codec::spec_u32_to_be;
use crate::codec::utf8_to_string;
use crate::error::PngError;
use vstd::utf8::decode_utf8;
use vstd::utf8::valid_utf8;

/// The mathematical content of one chunk record: its type code and its data.
/// The record's length and checksum are functions of these two.
pub struct ChunkView {
    pub type_code: Seq<u8>,
    pub data: Seq<u8>,
}

impl ChunkView {
    /// A code of 4 ASCII letters, and data short enough for the 32-bit
    /// length field.
    pub open spec fn wf(self) -> bool {
        is_code_bytes(self.type_code) && self.data.len() <= u32::MAX
    }

    /// The checksum every well-formed record carries: CRC-32 over the type
    /// code followed by the data.
    pub open spec fn crc(self) -> u32 {
        crc32_of(self.type_code + self.data)
    }

    /// The byte rendering: big-endian length, type code, data, big-endian
    /// checksum.
    pub open spec fn serialized(self) -> Seq<u8> {
        spec_u32_to_be(self.data.len() as u32) + self.type_code + self.data + spec_u32_to_be(
            self.crc(),
        )
    }
}

/// Reads one chunk record from the front of `b`: the parsed record and the
/// count of bytes it occupies, or the first failure among: too few bytes for
/// the length and type fields; a type code that is not 4 ASCII letters; too
/// few bytes for the declared data and the checksum; a stored checksum that
/// differs from the recomputed one.
pub open spec fn spec_read_chunk(b: Seq<u8>) -> Result<(ChunkView, int), PngError> {
    if b.len() < 8 {
        Err(PngError::TruncatedInput)
    } else {
        let len = spec_u32_from_be(b.subrange(0, 4)) as int;
        let tc = b.subrange(4, 8);
        if !is_code_bytes(tc) {
            Err(PngError::MalformedTypeCode)
        } else if b.len() < 12 + len {
            Err(PngError::TruncatedInput)
        } else {
            let data = b.subrange(8, 8 + len);
            let stored = spec_u32_from_be(b.subrange(8 + len, 12 + len));
            if stored != crc32_of(tc + data) {
                Err(PngError::ChecksumMismatch)
            } else {
                Ok((ChunkView { type_code: tc, data }, 12 + len))
            }
        }
    }
}

/// CRC-32 over the type code bytes followed by the data bytes.
fn calc_crc(chunk_type_bytes: [u8; 4], chunk_data_bytes: &[u8]) -> (r: u32)
    ensures
        r == crc32_of(chunk_type_bytes@ + chunk_data_bytes@),
{
    let mut all: Vec<u8> = Vec::new();
    all.push(chunk_type_bytes[0]);
    all.push(chunk_type_bytes[1]);
    all.push(chunk_type_bytes[2]);
    all.push(chunk_type_bytes[3]);
    all.extend_from_slice(chunk_data_bytes);
    proof {
        assert(all@ =~= chunk_type_bytes@ + chunk_data_bytes@);
    }
    crc32_checksum(all.as_slice())
}

/// One length-prefixed, checksummed record of container data.
#[derive(Debug)]
pub struct Chunk {
    pub chunk_type: ChunkType,
    pub chunk_data: Vec<u8>,
    pub crc_iso: u32,
}

impl View for Chunk {
    type V = ChunkView;

    open spec fn view(&self) -> ChunkView {
        ChunkView { type_code: self.chunk_type@, data: self.chunk_data@ }
    }
}

impl Chunk {
    /// The content is well formed and the stored checksum is the one the
    /// content determines.
    pub open spec fn wf(self) -> bool {
        self@.wf() && self.crc_iso == self@.crc()
    }

    /// Builds a record from a code and owned data, computing the checksum.
    pub fn new(chunk_type: ChunkType, chunk_data: Vec<u8>) -> (r: Chunk)
        requires
            chunk_type.wf(),
            chunk_data@.len() <= u32::MAX,
        ensures
            r.wf(),
            r@ == (ChunkView { type_code: chunk_type@, data: chunk_data@ }),
    {
        let crc_iso = calc_crc(chunk_type.bytes(), chunk_data.as_slice());
        Chunk { chunk_type, chunk_data, crc_iso }
    }

    /// The byte length of the data, read from the data itself.
    pub fn length(&self) -> (r: u32)
        requires
            self.wf(),
        ensures
            r == self@.data.len(),
    {
        self.chunk_data.len() as u32
    }

    /// The record's type code.
    pub fn chunk_type(&self) -> (r: &ChunkType)
        ensures
            *r == self.chunk_type,
            r@ == self@.type_code,
    {
        &self.chunk_type
    }

    /// The record's data.
    pub fn data(&self) -> (r: &[u8])
        ensures
            r@ == self@.data,
    {
        self.chunk_data.as_slice()
    }

    /// The record's checksum.
    pub fn crc(&self) -> (r: u32)
        requires
            self.wf(),
        ensures
            r == self@.crc(),
    {
        self.crc_iso
    }

    /// The data as text; fails iff the data is not valid UTF-8.
    pub fn data_as_string(&self) -> (r: Result<String, PngError>)
        ensures
            match r {
                Ok(s) => valid_utf8(self@.data) && s@ == decode_utf8(self@.data),
                Err(e) => e == PngError::EncodingError && !valid_utf8(self@.data),
            },
    {
        match utf8_to_string(&self.chunk_data) {
            Some(s) => Ok(s),
            None => Err(PngError::EncodingError),
        }
    }

    /// The record's byte rendering.
    pub fn as_bytes(&self) -> (r: Vec<u8>)
        requires
            self.wf(),
        ensures
            r@ == self@.serialized(),
    {
        let mut out: Vec<u8> = Vec::new();
        push_u32_be(&mut out, self.length());
        let tb = self.chunk_type.bytes();
        out.push(tb[0]);
        out.push(tb[1]);
        out.push(tb[2]);
        out.push(tb[3]);
        out.extend_from_slice(self.chunk_data.as_slice());
        push_u32_be(&mut out, self.crc_iso);
        proof {
            assert(out@ =~= self@.serialized());
        }
        out
    }

    /// Parses one record from exactly these bytes, re-verifying the
    /// checksum; bytes left over after the record are a failure.
    pub fn parse(bytes: &[u8]) -> (r: Result<Chunk, PngError>)
        ensures
            match r {
                Ok(c) => c.wf() && spec_read_chunk(bytes@) == Ok::<_, PngError>(
                    (c@, bytes@.len() as int),
                ),
                Err(e) => match spec_read_chunk(bytes@) {
                    Ok((cv, n)) => n != bytes@.len() && e == PngError::TruncatedInput,
                    Err(e2) => e == e2,
                },
            },
    {
        proof {
            assert(bytes@.skip(0) =~= bytes@);
        }
        match read_chunk(bytes, 0) {
            Ok((c, end)) => {
                if end == bytes.len() {
                    Ok(c)
                } else {
                    Err(PngError::TruncatedInput)
                }
            },
            Err(e) => Err(e),
        }
    }
}

/// Reads the chunk record that starts at `off`, returning it together with
/// the offset just past it.
pub(crate) fn read_chunk(bytes: &[u8], off: usize) -> (r: Result<(Chunk, usize), PngError>)
    requires
        off <= bytes@.len(),
    ensures
        match r {
            Ok((c, end)) => c.wf() && off < end <= bytes@.len() && spec_read_chunk(
                bytes@.skip(off as int),
            ) == Ok::<_, PngError>((c@, end - off)),
            Err(e) => spec_read_chunk(bytes@.skip(off as int)) == Err::<(ChunkView, int), _>(e),
        },
{
    let ghost tail = bytes@.skip(off as int);
    let n = bytes.len();
    let rem = n - off;
    if rem < 8 {
        return Err(PngError::TruncatedInput);
    }
    let length = read_u32_be(bytes, off);
    proof {
        assert(tail.subrange(0, 4) =~= bytes@.subrange(off as int, off as int + 4));
    }
    let t0 = bytes[off + 4];
    let t1 = bytes[off + 5];
    let t2 = bytes[off + 6];
    let t3 = bytes[off + 7];
    let tarr: [u8; 4] = [t0, t1, t2, t3];
    proof {
        assert(tarr@ =~= tail.subrange(4, 8));
    }
    let tc = match ChunkType::from_bytes(tarr) {
        Ok(t) => t,
        Err(e) => {
            return Err(e);
        },
    };
    if rem < 12 || (length as usize) > rem - 12 {
        return Err(PngError::TruncatedInput);
    }
    let data_start = off + 8;
    let data_end = data_start + (length as usize);
    let ghost len = length as int;
    let mut data: Vec<u8> = Vec::new();
    data.extend_from_slice(&bytes[data_start..data_end]);
    proof {
        assert(data@ =~= tail.subrange(8, 8 + len));
    }
    let stored = read_u32_be(bytes, data_end);
    proof {
        assert(bytes@.subrange(data_end as int, data_end as int + 4) =~= tail.subrange(
            8 + len,
            12 + len,
        ));
    }
    let computed = calc_crc(tarr, data.as_slice());
    if stored != computed {
        return Err(PngError::ChecksumMismatch);
    }
    let c = Chunk { chunk_type: tc, chunk_data: data, crc_iso: stored };
    proof {
        assert(c@.type_code =~= tail.subrange(4, 8));
    }
    Ok((c, data_end + 4))
}

/// A serialized record, followed by anything at all, reads back as exactly
/// that record.
pub proof fn lemma_read_chunk_serialized(cv: ChunkView, tail: Seq<u8>)
    requires
        cv.wf(),
    ensures
        spec_read_chunk(cv.serialized() + tail) == Ok::<_, PngError>(
            (cv, cv.serialized().len() as int),
        ),
{
    let s = cv.serialized();
    let b = s + tail;
    let len = cv.data.len() as int;
    assert(s.len() == 12 + len);
    lemma_u32_be_round_trip(cv.data.len() as u32);
    lemma_u32_be_round_trip(cv.crc());
    assert(b.subrange(0, 4) =~= spec_u32_to_be(cv.data.len() as u32));
    assert(b.subrange(4, 8) =~= cv.type_code);
    assert(b.subrange(8, 8 + len) =~= cv.data);
    assert(b.subrange(8 + len, 12 + len) =~= spec_u32_to_be(cv.crc()));
}

/// Parsing the serialization of a well-formed record succeeds and yields the
/// record back: the record-level round trip.
pub proof fn lemma_chunk_round_trip(cv: ChunkView)
    requires
        cv.wf(),
    ensures
        spec_read_chunk(cv.serialized()) == Ok::<_, PngError>((cv, cv.serialized().len() as int)),
{
    lemma_read_chunk_serialized(cv, Seq::empty());
    assert(cv.serialized() + Seq::<u8>::empty() =~= cv.serialized());
}

/// Corrupting any single byte of the checksum region of a serialized record
/// makes reading it back fail with a checksum mismatch.
pub proof fn lemma_checksum_corruption_detected(cv: ChunkView, b: Seq<u8>, i: int)
    requires
        cv.wf(),
        b.len() == cv.serialized().len(),
        8 + cv.data.len() <= i < b.len(),
        b[i] != cv.serialized()[i],
        forall|j: int| 0 <= j < b.len() && j != i ==> b[j] == cv.serialized()[j],
    ensures
        spec_read_chunk(b) == Err::<(ChunkView, int), _>(PngError::ChecksumMismatch),
{
    let s = cv.serialized();
    let len = cv.data.len() as int;
    assert(s.len() == 12 + len);
    lemma_u32_be_round_trip(cv.data.len() as u32);
    lemma_u32_be_round_trip(cv.crc());
    assert(b.subrange(0, 4) =~= spec_u32_to_be(cv.data.len() as u32));
    assert(b.subrange(4, 8) =~= cv.type_code);
    assert(b.subrange(8, 8 + len) =~= cv.data);
    let sc = s.subrange(8 + len, 12 + len);
    let bc = b.subrange(8 + len, 12 + len);
    assert(sc =~= spec_u32_to_be(cv.crc()));
    assert(bc[i - (8 + len)] != sc[i - (8 + len)]);
    if spec_u32_from_be(bc) == crc32_of(cv.type_code + cv.data) {
        lemma_u32_be_inverse(bc);
        assert(spec_u32_to_be(spec_u32_from_be(bc)) =~= bc);
        assert(bc =~= sc);
        assert(false);
    }
}

} // verus!
